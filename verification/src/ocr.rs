use vstd::prelude::*;

use crate::text::{chars_of, lines, lines_spec, push_chars, push_decimal, push_str, replace_all, replace_spec, string_from, trim, trim_spec, dec_spec};

verus! {

/// What a recognised block of text is.
#[derive(Debug, Clone, Copy, PartialEq, Eq, Structural)]
pub enum OcrBlockType {
    Text,
    Table,
    Code,
    Heading,
}

/// How recognised text is handed out.
#[derive(Debug, Clone, Copy, PartialEq, Eq, Structural)]
pub enum OcrOutputFormat {
    PlainText,
    Markdown,
    Json,
    Csv,
}

/// A screenshot to read text from.
pub struct OcrRequest {
    pub image_data: Vec<u8>,
    pub languages: Vec<String>,
    pub preprocess: bool,
}

/// A stand-in recogniser that reports the size of what it was given.
pub struct MockOcrProvider;

/// The text the stand-in recogniser reports for `n` bytes of image.
pub open spec fn mock_text_spec(n: nat) -> Seq<char> {
    "[Mock OCR: "@ + dec_spec(n) + " bytes]"@
}

impl MockOcrProvider {
    pub fn new() -> (p: Self) {
        MockOcrProvider
    }

    pub fn name(&self) -> (r: &'static str)
        ensures
            r@ == "mock"@,
    {
        "mock"
    }

    pub fn is_local(&self) -> (r: bool)
        ensures
            r,
    {
        true
    }

    /// The text it "recognises" in a request.
    pub fn recognized_text(&self, request: &OcrRequest) -> (r: String)
        ensures
            r@ == mock_text_spec(request.image_data@.len()),
    {
        let mut out: Vec<char> = Vec::new();
        push_str(&mut out, "[Mock OCR: ");
        push_decimal(&mut out, request.image_data.len() as u64);
        push_str(&mut out, " bytes]");
        string_from(&out)
    }

    pub fn supported_languages(&self) -> (r: Vec<String>)
        ensures
            r@.len() == 2,
            r@[0]@ == "en"@,
            r@[1]@ == "zh"@,
    {
        let mut v: Vec<String> = Vec::new();
        v.push(String::from_str("en"));
        v.push(String::from_str("zh"));
        v
    }
}

/// The script before the image path, where the first copy of it goes.
pub const OCR_SCRIPT_HEAD: &'static str = r#"
Add-Type -AssemblyName System.Runtime.WindowsRuntime
$null = [Windows.Media.Ocr.OcrEngine,Windows.Foundation.UniversalApiContract,ContentType=WindowsRuntime]
$null = [Windows.Graphics.Imaging.BitmapDecoder,Windows.Foundation.UniversalApiContract,ContentType=WindowsRuntime]
$null = [Windows.Storage.StorageFile,Windows.Foundation.UniversalApiContract,ContentType=WindowsRuntime]

AsTask([Windows.Storage.StorageFile]::GetFileFromPathAsync('"#;

/// The script between the two copies of the image path.
pub const OCR_SCRIPT_MIDDLE: &'static str = r#"')) | Out-Null
$file = [Windows.Storage.StorageFile]::GetFileFromPathAsync('"#;

/// The script after the second copy of the image path.
pub const OCR_SCRIPT_TAIL: &'static str = r#"').GetAwaiter().GetResult()
$stream = $file.OpenAsync([Windows.Storage.FileAccessMode]::Read).GetAwaiter().GetResult()
$decoder = [Windows.Graphics.Imaging.BitmapDecoder]::CreateAsync($stream).GetAwaiter().GetResult()
$bitmap = $decoder.GetSoftwareBitmapAsync().GetAwaiter().GetResult()
$engine = [Windows.Media.Ocr.OcrEngine]::TryCreateFromUserProfileLanguages()
$result = $engine.RecognizeAsync($bitmap).GetAwaiter().GetResult()
Write-Output $result.Text
"#;

/// The path as a single-quoted PowerShell string body: each `'` doubled.
pub open spec fn ps_quoted(path: Seq<char>) -> Seq<char> {
    replace_spec(path, "'"@, "''"@)
}

/// The PowerShell script that runs the Windows recogniser on the image at `path`.
pub open spec fn ocr_script_spec(path: Seq<char>) -> Seq<char> {
    OCR_SCRIPT_HEAD@ + ps_quoted(path) + OCR_SCRIPT_MIDDLE@ + ps_quoted(path) + OCR_SCRIPT_TAIL@
}

/// The lines of recognised text that hold more than white space.
pub open spec fn nonblank_lines(ls: Seq<Seq<char>>) -> Seq<Seq<char>> {
    ls.filter(|l: Seq<char>| trim_spec(l).len() > 0)
}

/// The recogniser built into Windows, driven through PowerShell.
pub struct WindowsOcrProvider {
    language: String,
}

impl WindowsOcrProvider {
    pub closed spec fn language_spec(&self) -> Seq<char> {
        self.language@
    }

    /// A recogniser for simplified Chinese.
    pub fn new() -> (p: Self)
        ensures
            p.language_spec() == "zh-Hans"@,
    {
        WindowsOcrProvider { language: String::from_str("zh-Hans") }
    }

    pub fn with_language(language: &str) -> (p: Self)
        ensures
            p.language_spec() == language@,
    {
        WindowsOcrProvider { language: String::from_str(language) }
    }

    pub fn language(&self) -> (r: &str)
        ensures
            r@ == self.language_spec(),
    {
        self.language.as_str()
    }

    pub fn name(&self) -> (r: &'static str)
        ensures
            r@ == "windows-ocr"@,
    {
        "windows-ocr"
    }

    pub fn is_local(&self) -> (r: bool)
        ensures
            r,
    {
        true
    }

    pub fn supported_languages(&self) -> (r: Vec<String>)
        ensures
            r@.len() == 5,
            r@[0]@ == "zh-Hans"@,
            r@[1]@ == "zh-Hant"@,
            r@[2]@ == "en"@,
            r@[3]@ == "ja"@,
            r@[4]@ == "ko"@,
    {
        let mut v: Vec<String> = Vec::new();
        v.push(String::from_str("zh-Hans"));
        v.push(String::from_str("zh-Hant"));
        v.push(String::from_str("en"));
        v.push(String::from_str("ja"));
        v.push(String::from_str("ko"));
        v
    }

    /// The script that recognises the text of the image file at `image_path`.
    pub fn powershell_script(image_path: &str) -> (r: String)
        ensures
            r@ == ocr_script_spec(image_path@),
    {
        let path = chars_of(image_path);
        let quote = chars_of("'");
        let doubled = chars_of("''");
        proof {
            reveal_strlit("'");
        }
        let q = replace_all(&path, &quote, &doubled);
        let mut out: Vec<char> = Vec::new();
        push_str(&mut out, OCR_SCRIPT_HEAD);
        push_chars(&mut out, &q);
        push_str(&mut out, OCR_SCRIPT_MIDDLE);
        push_chars(&mut out, &q);
        push_str(&mut out, OCR_SCRIPT_TAIL);
        string_from(&out)
    }

    /// The arguments `powershell` is started with to run `script`.
    pub fn powershell_args(script: &str) -> (r: Vec<String>)
        ensures
            r@.len() == 4,
            r@[0]@ == "-NoProfile"@,
            r@[1]@ == "-NonInteractive"@,
            r@[2]@ == "-Command"@,
            r@[3]@ == script@,
    {
        let mut v: Vec<String> = Vec::new();
        v.push(String::from_str("-NoProfile"));
        v.push(String::from_str("-NonInteractive"));
        v.push(String::from_str("-Command"));
        v.push(String::from_str(script));
        v
    }

    /// The recognised text from a finished PowerShell run: its output without surrounding
    /// white space, or an error carrying its error output.
    pub fn script_outcome(success: bool, stdout: &str, stderr: &str) -> (r: Result<String, String>)
        ensures
            success ==> (r matches Ok(t) && t@ == trim_spec(stdout@)),
            !success ==> (r matches Err(e) && e@ == "PowerShell OCR failed: "@ + stderr@),
    {
        if success {
            let o = chars_of(stdout);
            let t = trim(&o);
            Ok(string_from(&t))
        } else {
            let mut out: Vec<char> = Vec::new();
            push_str(&mut out, "PowerShell OCR failed: ");
            push_str(&mut out, stderr);
            Err(string_from(&out))
        }
    }

    /// The lines of recognised text that are not blank, in order; each becomes one block.
    pub fn text_blocks(text: &str) -> (r: Vec<String>)
        ensures
            r@.len() == nonblank_lines(lines_spec(text@)).len(),
            forall|i: int| 0 <= i < r@.len() ==> #[trigger] r@[i]@ == nonblank_lines(lines_spec(text@))[i],
    {
        let chars = chars_of(text);
        let ls = lines(&chars);
        let ghost lsv = lines_spec(text@);
        let ghost pred = |l: Seq<char>| trim_spec(l).len() > 0;
        let mut out: Vec<String> = Vec::new();
        let mut i: usize = 0;
        while i < ls.len()
            invariant
                ls@.len() == lsv.len(),
                forall|k: int| 0 <= k < ls@.len() ==> #[trigger] ls@[k]@ == lsv[k],
                pred == (|l: Seq<char>| trim_spec(l).len() > 0),
                i <= ls.len(),
                out@.len() == lsv.take(i as int).filter(pred).len(),
                forall|k: int| 0 <= k < out@.len() ==> #[trigger] out@[k]@ == lsv.take(i as int).filter(pred)[k],
            decreases ls.len() - i,
        {
            let t = trim(&ls[i]);
            proof {
                assert(lsv.take(i + 1) == lsv.take(i as int).push(lsv[i as int]));
                lsv.take(i as int).lemma_filter_push(lsv[i as int], pred);
            }
            if t.len() > 0 {
                out.push(string_from(&ls[i]));
            }
            i = i + 1;
        }
        proof {
            assert(lsv.take(ls.len() as int) == lsv);
        }
        out
    }
}

/// The name of the temporary image file handed to the recogniser by process `pid`.
pub fn ocr_temp_file_name(pid: u32) -> (r: String)
    ensures
        r@ == "falconshot_ocr_"@ + dec_spec(pid as nat) + ".png"@,
{
    let mut out: Vec<char> = Vec::new();
    push_str(&mut out, "falconshot_ocr_");
    push_decimal(&mut out, pid as u64);
    push_str(&mut out, ".png");
    string_from(&out)
}

} // verus!
