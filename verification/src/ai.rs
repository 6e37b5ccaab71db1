use vstd::prelude::*;

use crate::settings::AiSettings;
use crate::text::{
    chars_of, ends_with, lines, lines_spec, push_chars, push_str, starts_with, string_from, trim, trim_spec,
};

verus! {

/// Character `v` (0 to 63) of the standard base64 alphabet.
pub open spec fn b64_char(v: int) -> char {
    if v < 26 {
        (65 + v) as char
    } else if v < 52 {
        (97 + v - 26) as char
    } else if v < 62 {
        (48 + v - 52) as char
    } else if v == 62 {
        '+'
    } else {
        '/'
    }
}

/// One group of one to three bytes as four base64 characters, `=`-padded.
pub open spec fn b64_group(chunk: Seq<u8>) -> Seq<char> {
    let b0 = chunk[0] as int;
    let b1 = if chunk.len() > 1 {
        chunk[1] as int
    } else {
        0
    };
    let b2 = if chunk.len() > 2 {
        chunk[2] as int
    } else {
        0
    };
    let t = b0 * 65536 + b1 * 256 + b2;
    seq![
        b64_char(t / 262144),
        b64_char((t / 4096) % 64),
        if chunk.len() > 1 {
            b64_char((t / 64) % 64)
        } else {
            '='
        },
        if chunk.len() > 2 {
            b64_char(t % 64)
        } else {
            '='
        },
    ]
}

/// Where the last group of `n > 0` bytes begins.
pub open spec fn last_group_start(n: int) -> int {
    ((n - 1) / 3) * 3
}

/// Standard base64 with padding: the bytes in groups of three, each group as four
/// characters.
#[verifier::opaque]
pub open spec fn b64_spec(d: Seq<u8>) -> Seq<char>
    decreases d.len(),
{
    if d.len() == 0 {
        Seq::empty()
    } else {
        let n = last_group_start(d.len() as int);
        b64_spec(d.take(n)) + b64_group(d.skip(n))
    }
}

/// A character of the base64 alphabet or the padding `=`.
pub open spec fn is_b64_char(c: char) -> bool {
    ('A' <= c <= 'Z') || ('a' <= c <= 'z') || ('0' <= c <= '9') || c == '+' || c == '/' || c == '='
}

fn b64_char_of(v: u32) -> (c: char)
    requires
        v < 64,
    ensures
        c == b64_char(v as int),
{
    if v < 26 {
        ((65 + v) as u8) as char
    } else if v < 52 {
        ((97 + v - 26) as u8) as char
    } else if v < 62 {
        ((48 + v - 52) as u8) as char
    } else if v == 62 {
        '+'
    } else {
        '/'
    }
}

/// The four characters of the group `data[i .. j]`, one to three bytes long.
fn encode_group(data: &[u8], i: usize, j: usize) -> (g: Vec<char>)
    requires
        i < j <= data.len(),
        j <= i + 3,
    ensures
        g@ == b64_group(data@.subrange(i as int, j as int)),
{
    let ghost chunk = data@.subrange(i as int, j as int);
    let b0 = data[i] as u32;
    let b1 = if j - i > 1 {
        data[i + 1] as u32
    } else {
        0
    };
    let b2 = if j - i > 2 {
        data[i + 2] as u32
    } else {
        0
    };
    let triple = b0 * 65536 + b1 * 256 + b2;
    assert(triple / 262144 < 64);
    let mut g: Vec<char> = Vec::new();
    g.push(b64_char_of(triple / 262144));
    g.push(b64_char_of((triple / 4096) % 64));
    if j - i > 1 {
        g.push(b64_char_of((triple / 64) % 64));
    } else {
        g.push('=');
    }
    if j - i > 2 {
        g.push(b64_char_of(triple % 64));
    } else {
        g.push('=');
    }
    assert(g@ =~= b64_group(chunk));
    g
}

/// Encoding one more group extends the encoding of the bytes before it.
proof fn lemma_b64_step(d: Seq<u8>, i: int, j: int)
    requires
        0 <= i < j <= d.len(),
        j <= i + 3,
        i % 3 == 0,
    ensures
        b64_spec(d.take(j)) == b64_spec(d.take(i)) + b64_group(d.subrange(i, j)),
{
    reveal(b64_spec);
    let dj = d.take(j);
    assert(last_group_start(j) == i);
    assert(dj.take(i) == d.take(i));
    assert(dj.skip(i) == d.subrange(i, j));
}

/// The bytes as standard padded base64.
pub fn base64_encode(data: &[u8]) -> (r: String)
    ensures
        r@ == b64_spec(data@),
        r@.len() == 4 * ((data.len() + 2) / 3),
        b64_decode(r@) == data@,
{
    let mut out: Vec<char> = Vec::new();
    let mut i: usize = 0;
    proof {
        reveal(b64_spec);
        assert(data@.take(0) == Seq::<u8>::empty());
    }
    while i < data.len()
        invariant
            i <= data.len(),
            i % 3 == 0 || i == data.len(),
            out@ == b64_spec(data@.take(i as int)),
        decreases data.len() - i,
    {
        let j: usize = if data.len() - i >= 3 {
            i + 3
        } else {
            data.len()
        };
        let g = encode_group(data, i, j);
        push_chars(&mut out, &g);
        proof {
            lemma_b64_step(data@, i as int, j as int);
        }
        i = j;
    }
    proof {
        assert(data@.take(data.len() as int) == data@);
        lemma_b64_len(data@);
        lemma_b64_round_trip(data@);
    }
    string_from(&out)
}

/// Base64 turns every started group of three bytes into four characters.
pub proof fn lemma_b64_len(d: Seq<u8>)
    ensures
        b64_spec(d).len() == 4 * ((d.len() + 2) / 3),
    decreases d.len(),
{
    reveal(b64_spec);
    if d.len() > 0 {
        let n = last_group_start(d.len() as int);
        lemma_b64_len(d.take(n));
    }
}

/// Base64 output uses only the alphabet and `=`.
pub proof fn lemma_b64_alphabet(d: Seq<u8>)
    ensures
        forall|k: int| 0 <= k < b64_spec(d).len() ==> is_b64_char(#[trigger] b64_spec(d)[k]),
    decreases d.len(),
{
    reveal(b64_spec);
    if d.len() > 0 {
        let n = last_group_start(d.len() as int);
        lemma_b64_alphabet(d.take(n));
        let g = b64_group(d.skip(n));
        assert forall|k: int| 0 <= k < g.len() implies is_b64_char(#[trigger] g[k]) by {
            let chunk = d.skip(n);
            let b1 = if chunk.len() > 1 {
                chunk[1] as int
            } else {
                0
            };
            let b2 = if chunk.len() > 2 {
                chunk[2] as int
            } else {
                0
            };
            let t = chunk[0] as int * 65536 + b1 * 256 + b2;
            assert(0 <= t / 262144 < 64);
        }
        assert(b64_spec(d) == b64_spec(d.take(n)) + g);
    }
}

/// The value (0 to 63) of a base64 alphabet character.
pub open spec fn b64_value(c: char) -> int {
    if 'A' <= c <= 'Z' {
        c as int - 65
    } else if 'a' <= c <= 'z' {
        c as int - 97 + 26
    } else if '0' <= c <= '9' {
        c as int - 48 + 52
    } else if c == '+' {
        62
    } else {
        63
    }
}

/// The one to three bytes of a `=`-padded group of four base64 characters (RFC 4648).
pub open spec fn b64_decode_group(g: Seq<char>) -> Seq<u8> {
    let v0 = b64_value(g[0]);
    let v1 = b64_value(g[1]);
    let v2 = if g[2] == '=' { 0 } else { b64_value(g[2]) };
    let v3 = if g[3] == '=' { 0 } else { b64_value(g[3]) };
    let b0 = (v0 * 4 + v1 / 16) as u8;
    let b1 = ((v1 % 16) * 16 + v2 / 4) as u8;
    let b2 = ((v2 % 4) * 64 + v3) as u8;
    if g[2] == '=' {
        seq![b0]
    } else if g[3] == '=' {
        seq![b0, b1]
    } else {
        seq![b0, b1, b2]
    }
}

/// Standard padded base64 decoding: each group of four characters gives its bytes.
pub open spec fn b64_decode(s: Seq<char>) -> Seq<u8>
    decreases s.len(),
{
    if s.len() < 4 {
        Seq::empty()
    } else {
        b64_decode(s.take(s.len() - 4)) + b64_decode_group(s.skip(s.len() - 4))
    }
}

proof fn lemma_b64_value(v: int)
    requires
        0 <= v < 64,
    ensures
        b64_value(b64_char(v)) == v,
        b64_char(v) != '=',
{
}

proof fn lemma_b64_group_round_trip(chunk: Seq<u8>)
    requires
        1 <= chunk.len() <= 3,
    ensures
        b64_decode_group(b64_group(chunk)) == chunk,
{
    let b0 = chunk[0] as int;
    let b1 = if chunk.len() > 1 { chunk[1] as int } else { 0 };
    let b2 = if chunk.len() > 2 { chunk[2] as int } else { 0 };
    let t = b0 * 65536 + b1 * 256 + b2;
    let v0 = t / 262144;
    let v1 = (t / 4096) % 64;
    let v2 = (t / 64) % 64;
    let v3 = t % 64;
    assert(v0 == b0 / 4 && v1 == (b0 % 4) * 16 + b1 / 16 && v2 == (b1 % 16) * 4 + b2 / 64 && v3 == b2 % 64)
        by (nonlinear_arith)
        requires
            0 <= b0 < 256,
            0 <= b1 < 256,
            0 <= b2 < 256,
            t == b0 * 65536 + b1 * 256 + b2,
            v0 == t / 262144,
            v1 == (t / 4096) % 64,
            v2 == (t / 64) % 64,
            v3 == t % 64,
    ;
    lemma_b64_value(v0);
    lemma_b64_value(v1);
    lemma_b64_value(v2);
    lemma_b64_value(v3);
    let g = b64_group(chunk);
    let d = b64_decode_group(g);
    assert(d[0] == chunk[0]);
    if chunk.len() > 1 {
        assert(d[1] == chunk[1]);
    }
    if chunk.len() > 2 {
        assert(d[2] == chunk[2]);
    }
    assert(d =~= chunk);
}

/// How many `=` pad the base64 of `n` bytes.
pub open spec fn b64_padding(n: int) -> int {
    (3 - n % 3) % 3
}

/// In the base64 of some bytes, `=` stands exactly in the last `b64_padding` places.
pub proof fn lemma_b64_padding(d: Seq<u8>)
    ensures
        forall|k: int|
            0 <= k < b64_spec(d).len() ==> (#[trigger] b64_spec(d)[k] == '=' <==> k >= b64_spec(d).len()
                - b64_padding(d.len() as int)),
    decreases d.len(),
{
    reveal(b64_spec);
    lemma_b64_len(d);
    if d.len() > 0 {
        let n = last_group_start(d.len() as int);
        lemma_b64_padding(d.take(n));
        lemma_b64_len(d.take(n));
        let chunk = d.skip(n);
        let e0 = b64_spec(d.take(n));
        let g = b64_group(chunk);
        let e = b64_spec(d);
        assert(e == e0 + g);
        let b0 = chunk[0] as int;
        let b1 = if chunk.len() > 1 { chunk[1] as int } else { 0 };
        let b2 = if chunk.len() > 2 { chunk[2] as int } else { 0 };
        let t = b0 * 65536 + b1 * 256 + b2;
        assert(0 <= t / 262144 < 64);
        lemma_b64_value(t / 262144);
        lemma_b64_value((t / 4096) % 64);
        lemma_b64_value((t / 64) % 64);
        lemma_b64_value(t % 64);
        assert(b64_padding(n) == 0);
        assert forall|k: int| 0 <= k < e.len() implies (#[trigger] e[k] == '=' <==> k >= e.len() - b64_padding(
            d.len() as int,
        )) by {
            if k < e0.len() {
                assert(e[k] == e0[k]);
            } else {
                assert(e[k] == g[k - e0.len()]);
            }
        }
    }
}

/// Decoding the base64 of some bytes gives the bytes back.
pub proof fn lemma_b64_round_trip(d: Seq<u8>)
    ensures
        b64_decode(b64_spec(d)) == d,
    decreases d.len(),
{
    reveal(b64_spec);
    if d.len() > 0 {
        let n = last_group_start(d.len() as int);
        lemma_b64_round_trip(d.take(n));
        lemma_b64_len(d.take(n));
        lemma_b64_group_round_trip(d.skip(n));
        let e = b64_spec(d);
        let g = b64_group(d.skip(n));
        assert(e == b64_spec(d.take(n)) + g);
        assert(e.take(e.len() - 4) =~= b64_spec(d.take(n)));
        assert(e.skip(e.len() - 4) =~= g);
        assert(d.take(n) + d.skip(n) =~= d);
    } else {
        assert(b64_spec(d) == Seq::<char>::empty());
    }
}

/// The image bytes as a `data:` URL of a PNG.
pub open spec fn png_data_url(image: Seq<u8>) -> Seq<char> {
    "data:image/png;base64,"@ + b64_spec(image)
}

pub fn png_data_url_of(image: &[u8]) -> (r: String)
    ensures
        r@ == png_data_url(image@),
{
    let mut out: Vec<char> = Vec::new();
    push_str(&mut out, "data:image/png;base64,");
    let enc = base64_encode(image);
    let enc_chars = chars_of(enc.as_str());
    push_chars(&mut out, &enc_chars);
    string_from(&out)
}

/// `s` without any number of trailing `c`.
pub open spec fn trim_trailing(s: Seq<char>, c: char) -> Seq<char>
    decreases s.len(),
{
    if s.len() > 0 && s.last() == c {
        trim_trailing(s.drop_last(), c)
    } else {
        s
    }
}

/// `s` without any number of trailing `c`, as `str::trim_end_matches` gives it.
pub fn trim_trailing_char(s: &str, c: char) -> (r: String)
    ensures
        r@ == trim_trailing(s@, c),
{
    let v = chars_of(s);
    let mut j: usize = v.len();
    assert(v@.subrange(0, j as int) == v@);
    while j > 0 && v[j - 1] == c
        invariant
            j <= v.len(),
            trim_trailing(v@, c) == trim_trailing(v@.subrange(0, j as int), c),
        decreases j,
    {
        proof {
            assert(v@.subrange(0, j as int).drop_last() == v@.subrange(0, j - 1));
        }
        j = j - 1;
    }
    let mut out: Vec<char> = Vec::new();
    let mut k: usize = 0;
    while k < j
        invariant
            k <= j <= v.len(),
            out@ == v@.subrange(0, k as int),
        decreases j - k,
    {
        out.push(v[k]);
        k = k + 1;
    }
    proof {
        assert(v@.subrange(0, 0) == Seq::<char>::empty());
        assert(trim_trailing(v@.subrange(0, j as int), c) == v@.subrange(0, j as int));
        assert(v@.subrange(0, v@.len() as int) == v@);
    }
    string_from(&out)
}

/// Who wrote a chat message.
#[derive(Debug, Clone, Copy, PartialEq, Eq, Structural)]
pub enum ChatRole {
    System,
    User,
    Assistant,
}

impl ChatRole {
    pub open spec fn name_spec(self) -> Seq<char> {
        match self {
            ChatRole::System => "system"@,
            ChatRole::User => "user"@,
            ChatRole::Assistant => "assistant"@,
        }
    }

    /// The role as the chat API names it.
    pub fn as_str(&self) -> (r: &'static str)
        ensures
            r@ == self.name_spec(),
    {
        match self {
            ChatRole::System => "system",
            ChatRole::User => "user",
            ChatRole::Assistant => "assistant",
        }
    }
}

/// An earlier turn of a conversation.
pub struct ChatMessage {
    pub role: ChatRole,
    pub content: String,
}

/// A request to analyse a screenshot.
pub struct AiRequest {
    /// The encoded screenshot.
    pub image_data: Vec<u8>,
    pub prompt: String,
    pub system_prompt: Option<String>,
    pub history: Vec<ChatMessage>,
    pub max_tokens: Option<u32>,
    pub conversation_id: Option<String>,
}

/// The content of one message sent to the chat API.
pub enum MessageContent {
    Text(String),
    /// A text part followed by an image part given by URL.
    TextAndImage { text: String, image_url: String },
}

/// One message sent to the chat API.
pub struct RequestMessage {
    pub role: ChatRole,
    pub content: MessageContent,
}

/// `m` has role `role`, text `text`, and an image part exactly when `image` is `Some`.
pub open spec fn message_is(m: RequestMessage, role: ChatRole, text: Seq<char>, image: Option<Seq<char>>) -> bool {
    &&& m.role == role
    &&& match m.content {
        MessageContent::Text(t) => t@ == text && image is None,
        MessageContent::TextAndImage { text: t, image_url } => t@ == text && image == Some(image_url@),
    }
}

/// How many messages precede the earlier turns: one for a system prompt, else none.
pub open spec fn system_offset(request: &AiRequest) -> int {
    if request.system_prompt is Some {
        1
    } else {
        0
    }
}

/// A client for chat-completion services that speak the OpenAI protocol.
pub struct OpenAiProvider {
    api_key: String,
    base_url: String,
    model: String,
    timeout_secs: u32,
    vision: bool,
}

impl OpenAiProvider {
    pub closed spec fn api_key_spec(&self) -> Seq<char> {
        self.api_key@
    }

    pub closed spec fn base_url_spec(&self) -> Seq<char> {
        self.base_url@
    }

    pub closed spec fn model_spec(&self) -> Seq<char> {
        self.model@
    }

    pub closed spec fn timeout_spec(&self) -> u32 {
        self.timeout_secs
    }

    pub closed spec fn vision_spec(&self) -> bool {
        self.vision
    }

    /// A provider with a 60-second timeout that sends the screenshot along; trailing slashes
    /// of the base URL are dropped.
    pub fn new(api_key: &str, base_url: &str, model: &str) -> (p: Self)
        ensures
            p.api_key_spec() == api_key@,
            p.base_url_spec() == trim_trailing(base_url@, '/'),
            p.model_spec() == model@,
            p.timeout_spec() == 60,
            p.vision_spec(),
    {
        OpenAiProvider {
            api_key: String::from_str(api_key),
            base_url: trim_trailing_char(base_url, '/'),
            model: String::from_str(model),
            timeout_secs: 60,
            vision: true,
        }
    }

    pub fn with_timeout(self, secs: u32) -> (p: Self)
        ensures
            p.timeout_spec() == secs,
            p.api_key_spec() == self.api_key_spec(),
            p.base_url_spec() == self.base_url_spec(),
            p.model_spec() == self.model_spec(),
            p.vision_spec() == self.vision_spec(),
    {
        let mut p = self;
        p.timeout_secs = secs;
        p
    }

    pub fn with_vision(self, enabled: bool) -> (p: Self)
        ensures
            p.vision_spec() == enabled,
            p.api_key_spec() == self.api_key_spec(),
            p.base_url_spec() == self.base_url_spec(),
            p.model_spec() == self.model_spec(),
            p.timeout_spec() == self.timeout_spec(),
    {
        let mut p = self;
        p.vision = enabled;
        p
    }

    pub fn name(&self) -> (r: &'static str)
        ensures
            r@ == "openai-compatible"@,
    {
        "openai-compatible"
    }

    pub fn is_local(&self) -> (r: bool)
        ensures
            !r,
    {
        false
    }

    pub fn api_key(&self) -> (r: &str)
        ensures
            r@ == self.api_key_spec(),
    {
        self.api_key.as_str()
    }

    pub fn model(&self) -> (r: &str)
        ensures
            r@ == self.model_spec(),
    {
        self.model.as_str()
    }

    pub fn timeout_secs(&self) -> (r: u32)
        ensures
            r == self.timeout_spec(),
    {
        self.timeout_secs
    }

    /// The chat-completions endpoint under the base URL.
    pub fn chat_url(&self) -> (r: String)
        ensures
            r@ == self.base_url_spec() + "/chat/completions"@,
    {
        let mut out = chars_of(self.base_url.as_str());
        push_str(&mut out, "/chat/completions");
        string_from(&out)
    }

    /// The `Authorization` header value.
    pub fn auth_header(&self) -> (r: String)
        ensures
            r@ == "Bearer "@ + self.api_key_spec(),
    {
        let mut out: Vec<char> = Vec::new();
        push_str(&mut out, "Bearer ");
        let k = chars_of(self.api_key.as_str());
        push_chars(&mut out, &k);
        string_from(&out)
    }

    /// The messages for a request: the system prompt if there is one, the earlier turns,
    /// then the user's prompt, with the screenshot attached as a PNG data URL when the
    /// model takes images.
    pub fn build_messages(&self, request: &AiRequest) -> (msgs: Vec<RequestMessage>)
        ensures
            msgs@.len() == system_offset(request) + request.history@.len() + 1,
            request.system_prompt matches Some(sys) ==> message_is(msgs@[0], ChatRole::System, sys@, None),
            forall|i: int|
                0 <= i < request.history@.len() ==> message_is(
                    msgs@[system_offset(request) + i],
                    (#[trigger] request.history@[i]).role,
                    request.history@[i].content@,
                    None,
                ),
            message_is(
                msgs@.last(),
                ChatRole::User,
                request.prompt@,
                if self.vision_spec() {
                    Some(png_data_url(request.image_data@))
                } else {
                    None
                },
            ),
    {
        let mut msgs: Vec<RequestMessage> = Vec::new();
        let ghost off: int = system_offset(request);
        match &request.system_prompt {
            Some(sys) => {
                msgs.push(RequestMessage { role: ChatRole::System, content: MessageContent::Text(sys.clone()) });
            },
            None => {},
        }
        let mut i: usize = 0;
        while i < request.history.len()
            invariant
                i <= request.history.len(),
                msgs@.len() == off + i,
                off == system_offset(request),
                request.system_prompt matches Some(sys) ==> message_is(msgs@[0], ChatRole::System, sys@, None),
                forall|k: int|
                    0 <= k < i ==> message_is(
                        msgs@[off + k],
                        (#[trigger] request.history@[k]).role,
                        request.history@[k].content@,
                        None,
                    ),
            decreases request.history.len() - i,
        {
            let m = &request.history[i];
            msgs.push(RequestMessage { role: m.role, content: MessageContent::Text(m.content.clone()) });
            i = i + 1;
        }
        if self.vision {
            let url = png_data_url_of(request.image_data.as_slice());
            msgs.push(
                RequestMessage {
                    role: ChatRole::User,
                    content: MessageContent::TextAndImage { text: request.prompt.clone(), image_url: url },
                },
            );
        } else {
            msgs.push(RequestMessage { role: ChatRole::User, content: MessageContent::Text(request.prompt.clone()) });
        }
        msgs
    }
}

/// What `serde_json` finds at `choices[0].delta.content` of the JSON text `data`, when
/// the text parses and that value is a string.
pub uninterp spec fn json_delta_content(data: Seq<char>) -> Option<Seq<char>>;

/// Parses `data` with `serde_json::from_str` into a `serde_json::Value` and reads
/// `choices[0].delta.content` with `Value::as_str`. The result is named: a JSON parse takes
/// pages to state.
#[verifier::external_body]
fn delta_content(data: &str) -> (r: Option<String>)
    ensures
        match r {
            Some(t) => json_delta_content(data@) == Some(t@),
            None => json_delta_content(data@) is None,
        },
{
    match serde_json::from_str::<serde_json::Value>(data) {
        Ok(json) => json["choices"][0]["delta"]["content"].as_str().map(String::from),
        Err(_) => None,
    }
}

/// The payload of a server-sent-events line: the trimmed line after `"data: "`, if it
/// starts so.
pub open spec fn sse_data(line: Seq<char>) -> Option<Seq<char>> {
    let t = trim_spec(line);
    if t.len() >= 6 && t.take(6) == "data: "@ {
        Some(t.skip(6))
    } else {
        None
    }
}

/// The text pieces of a streamed completion, from line `i` on: the delta content of each
/// `data:` line, stopping at `data: [DONE]`; lines that are not `data:` lines or whose JSON
/// holds no delta text add nothing.
pub open spec fn stream_deltas_from(ls: Seq<Seq<char>>, i: int) -> Seq<Seq<char>>
    decreases ls.len() - i,
{
    if i < 0 || i >= ls.len() {
        Seq::empty()
    } else {
        match sse_data(ls[i]) {
            None => stream_deltas_from(ls, i + 1),
            Some(d) => if d == "[DONE]"@ {
                Seq::empty()
            } else {
                match json_delta_content(d) {
                    Some(c) => seq![c] + stream_deltas_from(ls, i + 1),
                    None => stream_deltas_from(ls, i + 1),
                }
            },
        }
    }
}

/// A streamed completion: the pieces as they arrived and the whole text.
pub struct StreamedText {
    pub deltas: Vec<String>,
    pub content: String,
}

fn is_literal(v: &Vec<char>, s: &str) -> (r: bool)
    ensures
        r == (v@ == s@),
{
    let p = chars_of(s);
    if v.len() != p.len() {
        return false;
    }
    let r = starts_with(v, &p);
    proof {
        assert(v@.subrange(0, v@.len() as int) == v@);
    }
    r
}

/// Reads the body of a streamed chat completion.
pub fn read_stream(text: &str) -> (r: StreamedText)
    ensures
        r.deltas@.len() == stream_deltas_from(lines_spec(text@), 0).len(),
        forall|i: int| 0 <= i < r.deltas@.len() ==> #[trigger] r.deltas@[i]@ == stream_deltas_from(lines_spec(text@), 0)[i],
        r.content@ == stream_deltas_from(lines_spec(text@), 0).flatten(),
{
    let chars = chars_of(text);
    let ls = lines(&chars);
    let ghost lsv = lines_spec(text@);
    let ghost want = stream_deltas_from(lsv, 0);
    let mut deltas: Vec<String> = Vec::new();
    let mut content: Vec<char> = Vec::new();
    let mut i: usize = 0;
    let data_prefix = chars_of("data: ");
    proof {
        reveal_strlit("data: ");
        reveal_strlit("[DONE]");
    }
    while i < ls.len()
        invariant
            ls@.len() == lsv.len(),
            forall|k: int| 0 <= k < ls@.len() ==> #[trigger] ls@[k]@ == lsv[k],
            data_prefix@ == "data: "@,
            want == stream_deltas_from(lsv, 0),
            i <= ls.len(),
            deltas@.len() + stream_deltas_from(lsv, i as int).len() == want.len(),
            forall|k: int| 0 <= k < deltas@.len() ==> #[trigger] deltas@[k]@ == want[k],
            forall|k: int|
                0 <= k < stream_deltas_from(lsv, i as int).len() ==> #[trigger] stream_deltas_from(lsv, i as int)[k]
                    == want[deltas@.len() + k],
            content@ == want.take(deltas@.len() as int).flatten(),
        ensures
            deltas@.len() == want.len(),
            forall|k: int| 0 <= k < deltas@.len() ==> #[trigger] deltas@[k]@ == want[k],
            content@ == want.take(deltas@.len() as int).flatten(),
        decreases ls.len() - i,
    {
        let t = trim(&ls[i]);
        let ghost rest = stream_deltas_from(lsv, i as int);
        if t.len() >= 6 && starts_with(&t, &data_prefix) {
            let mut data: Vec<char> = Vec::new();
            let mut k: usize = 6;
            while k < t.len()
                invariant
                    6 <= k <= t.len(),
                    data@ == t@.subrange(6, k as int),
                decreases t.len() - k,
            {
                data.push(t[k]);
                k = k + 1;
            }
            proof {
                reveal_strlit("data: ");
                reveal_strlit("[DONE]");
                assert(t@.take(6) =~= "data: "@);
                assert(data@ == t@.skip(6));
                assert(t@ == trim_spec(lsv[i as int]));
                assert(sse_data(lsv[i as int]) == Some(data@));
            }
            if is_literal(&data, "[DONE]") {
                proof {
                    assert(rest.len() == 0);
                }
                break;
            }
            let ds = string_from(&data);
            match delta_content(ds.as_str()) {
                Some(c) => {
                    let cc = chars_of(c.as_str());
                    proof {
                        assert(rest == seq![c@] + stream_deltas_from(lsv, i + 1));
                        assert(rest[0] == want[deltas@.len() as int + 0]);
                        assert(want[deltas@.len() as int] == c@);
                        assert(want.take(deltas@.len() as int + 1) == want.take(deltas@.len() as int).push(c@));
                        want.take(deltas@.len() as int).lemma_flatten_push(c@);
                        assert forall|k: int|
                            0 <= k < stream_deltas_from(lsv, i + 1).len() implies #[trigger] stream_deltas_from(
                                lsv,
                                i + 1,
                            )[k] == want[deltas@.len() + 1 + k] by {
                            assert(stream_deltas_from(lsv, i + 1)[k] == rest[k + 1]);
                        }
                    }
                    push_chars(&mut content, &cc);
                    deltas.push(c);
                },
                None => {},
            }
        }
        i = i + 1;
    }
    proof {
        assert(want.take(deltas@.len() as int) == want);
    }
    StreamedText { deltas, content: string_from(&content) }
}

/// The outcome of a chat request.
pub struct AiResponse {
    pub content: String,
    pub model: String,
    pub tokens_used: u32,
    pub duration_ms: u64,
    pub conversation_id: Option<String>,
}

impl OpenAiProvider {
    /// The response to a plain (not streamed) request, from the fields of the reply: a
    /// missing text is empty, a missing token count zero (a count beyond `u32` keeps its low
    /// 32 bits), a missing model name this provider's model.
    pub fn response_from_reply(
        &self,
        content: Option<&str>,
        total_tokens: Option<u64>,
        model: Option<&str>,
        duration_ms: u64,
        conversation_id: Option<String>,
    ) -> (r: AiResponse)
        ensures
            r.content@ == match content {
                Some(c) => c@,
                None => Seq::empty(),
            },
            r.tokens_used == match total_tokens {
                Some(t) => t as u32,
                None => 0,
            },
            r.model@ == match model {
                Some(m) => m@,
                None => self.model_spec(),
            },
            r.duration_ms == duration_ms,
            r.conversation_id == conversation_id,
    {
        let text = match content {
            Some(c) => String::from_str(c),
            None => String::new(),
        };
        let tokens: u32 = match total_tokens {
            Some(t) => #[verifier::truncate] (t as u32),
            None => 0,
        };
        let m = match model {
            Some(m) => String::from_str(m),
            None => self.model.clone(),
        };
        AiResponse { content: text, model: m, tokens_used: tokens, duration_ms, conversation_id }
    }

    /// The response to a streamed request: the streamed text, this provider's model, no
    /// token count.
    pub fn response_from_stream(&self, streamed: StreamedText, duration_ms: u64, conversation_id: Option<String>) -> (r:
        AiResponse)
        ensures
            r.content@ == streamed.content@,
            r.model@ == self.model_spec(),
            r.tokens_used == 0,
            r.duration_ms == duration_ms,
            r.conversation_id == conversation_id,
    {
        AiResponse {
            content: streamed.content,
            model: self.model.clone(),
            tokens_used: 0,
            duration_ms,
            conversation_id,
        }
    }
}

/// The service used when the settings name none.
pub const DEFAULT_BASE_URL: &'static str = "https://api.deepseek.com";

/// The instructions sent with every text-extraction request unless the settings give some.
pub const DEFAULT_SYSTEM_PROMPT: &'static str = "你是一个精准的图像文字识别（OCR）助手。请提取图片中的全部文字内容，保持原有段落与层级结构，使用 Markdown 格式输出（表格转为 Markdown 表格，代码使用代码块）。只输出识别到的内容本身，不要添加任何解释或额外说明。";

/// The request used when the caller gives no prompt.
pub const DEFAULT_USER_PROMPT: &'static str = "请识别这张截图中的文字并以 Markdown 输出。";

/// The answer when no API key is configured.
pub const MISSING_KEY_MESSAGE: &'static str = "请先在设置页填写 API Key（需要支持视觉的模型）";

/// The answer when the base URL is an image-generation endpoint.
pub const IMAGE_ENDPOINT_MESSAGE: &'static str = "Base URL 指向的是图片生成接口（images/generations），无法用于文字识别。请填写 API 根地址，例如 https://api.agnes-ai.cn/v1";

/// The answer when a successful reply holds no text.
pub const MISSING_CONTENT_MESSAGE: &'static str = "响应中缺少识别内容";

/// How a text-extraction request will be made.
pub struct ExtractPlan {
    pub api_key: String,
    pub base_url: String,
    pub model: String,
    pub system_prompt: String,
    pub user_prompt: String,
    pub timeout_secs: u32,
}

/// `s` is empty or all white space.
pub open spec fn is_blank(s: Seq<char>) -> bool {
    trim_spec(s).len() == 0
}

/// Decides how to ask for the text of a screenshot: the configured key, else the one from
/// the environment (an error when neither is set); the configured base URL or the default;
/// the configured system prompt unless blank; the caller's prompt unless blank; a timeout of
/// at least ten seconds.
pub fn plan_ai_extract(settings: &AiSettings, env_key: Option<&str>, prompt: Option<&str>) -> (r: Result<
    ExtractPlan,
    String,
>)
    ensures
        ({
            let key = if settings.api_key@.len() > 0 {
                settings.api_key@
            } else {
                match env_key {
                    Some(k) => k@,
                    None => Seq::empty(),
                }
            };
            &&& r is Err <==> key.len() == 0
            &&& r matches Err(e) ==> e@ == MISSING_KEY_MESSAGE@
            &&& r matches Ok(p) ==> {
                &&& p.api_key@ == key
                &&& p.base_url@ == match settings.base_url {
                    Some(u) => u@,
                    None => DEFAULT_BASE_URL@,
                }
                &&& p.model@ == settings.model@
                &&& p.system_prompt@ == if is_blank(settings.system_prompt@) {
                    DEFAULT_SYSTEM_PROMPT@
                } else {
                    settings.system_prompt@
                }
                &&& p.user_prompt@ == match prompt {
                    Some(q) => if is_blank(q@) {
                        DEFAULT_USER_PROMPT@
                    } else {
                        q@
                    },
                    None => DEFAULT_USER_PROMPT@,
                }
                &&& p.timeout_secs == if settings.timeout_secs >= 10 {
                    settings.timeout_secs
                } else {
                    10
                }
            }
        }),
{
    let api_key = if settings.api_key.as_str().unicode_len() > 0 {
        settings.api_key.clone()
    } else {
        match env_key {
            Some(k) => String::from_str(k),
            None => String::new(),
        }
    };
    if api_key.as_str().unicode_len() == 0 {
        return Err(String::from_str(MISSING_KEY_MESSAGE));
    }
    let base_url = match &settings.base_url {
        Some(u) => u.clone(),
        None => String::from_str(DEFAULT_BASE_URL),
    };
    let sys_chars = chars_of(settings.system_prompt.as_str());
    let system_prompt = if trim(&sys_chars).len() == 0 {
        String::from_str(DEFAULT_SYSTEM_PROMPT)
    } else {
        settings.system_prompt.clone()
    };
    let user_prompt = match prompt {
        Some(q) => {
            let qc = chars_of(q);
            if trim(&qc).len() == 0 {
                String::from_str(DEFAULT_USER_PROMPT)
            } else {
                String::from_str(q)
            }
        },
        None => String::from_str(DEFAULT_USER_PROMPT),
    };
    let timeout_secs = if settings.timeout_secs >= 10 {
        settings.timeout_secs
    } else {
        10
    };
    Ok(
        ExtractPlan {
            api_key,
            base_url,
            model: settings.model.clone(),
            system_prompt,
            user_prompt,
            timeout_secs,
        },
    )
}

/// The chat endpoint for a base URL: trailing slashes dropped, then `/chat/completions`
/// added unless already there; an image-generation endpoint is refused.
pub open spec fn chat_endpoint_spec(base: Seq<char>) -> Result<Seq<char>, Seq<char>> {
    let u = trim_trailing(base, '/');
    let gen = "/images/generations"@;
    let chat = "/chat/completions"@;
    if u.len() >= gen.len() && u.skip(u.len() - gen.len()) == gen {
        Err(IMAGE_ENDPOINT_MESSAGE@)
    } else if u.len() >= chat.len() && u.skip(u.len() - chat.len()) == chat {
        Ok(u)
    } else {
        Ok(u + chat)
    }
}

/// The chat endpoint for a base URL, which may already be the full endpoint.
pub fn chat_endpoint(base_url: &str) -> (r: Result<String, String>)
    ensures
        match chat_endpoint_spec(base_url@) {
            Ok(u) => r matches Ok(s) && s@ == u,
            Err(e) => r matches Err(s) && s@ == e,
        },
{
    let url = trim_trailing_char(base_url, '/');
    let u = chars_of(url.as_str());
    let gen = chars_of("/images/generations");
    let chat = chars_of("/chat/completions");
    proof {
        reveal_strlit("/images/generations");
        reveal_strlit("/chat/completions");
    }
    if ends_with(&u, &gen) {
        proof {
            assert(u@.skip(u@.len() - gen@.len()) =~= gen@);
        }
        return Err(String::from_str(IMAGE_ENDPOINT_MESSAGE));
    }
    proof {
        if u@.len() >= gen@.len() && u@.skip(u@.len() - gen@.len()) == gen@ {
            assert forall|k: int| 0 <= k < gen@.len() implies u@[u@.len() - gen@.len() + k] == gen@[k] by {
                assert(u@.skip(u@.len() - gen@.len())[k] == gen@[k]);
            }
        }
    }
    if ends_with(&u, &chat) {
        proof {
            assert(u@.skip(u@.len() - chat@.len()) =~= chat@);
        }
        return Ok(url);
    }
    proof {
        if u@.len() >= chat@.len() && u@.skip(u@.len() - chat@.len()) == chat@ {
            assert forall|k: int| 0 <= k < chat@.len() implies u@[u@.len() - chat@.len() + k] == chat@[k] by {
                assert(u@.skip(u@.len() - chat@.len())[k] == chat@[k]);
            }
        }
    }
    let mut out = u;
    push_chars(&mut out, &chat);
    Ok(string_from(&out))
}

/// The text of a finished extraction request: for a failure status, the API error with
/// the status, the endpoint and the service's message (or the whole reply when it gives
/// none); for success, the reply's text, or an error when it holds none.
pub open spec fn extract_reply_spec(
    success: bool,
    status: Seq<char>,
    url: Seq<char>,
    error_message: Option<Seq<char>>,
    body: Seq<char>,
    content: Option<Seq<char>>,
) -> Result<Seq<char>, Seq<char>> {
    if !success {
        let msg = match error_message {
            Some(m) => m,
            None => body,
        };
        Err("API 错误 "@ + status + "（POST "@ + url + "）: "@ + msg)
    } else {
        match content {
            Some(c) => Ok(c),
            None => Err(MISSING_CONTENT_MESSAGE@),
        }
    }
}

/// Interprets the reply to an extraction request.
pub fn extract_reply(
    success: bool,
    status: &str,
    url: &str,
    error_message: Option<&str>,
    body: &str,
    content: Option<&str>,
) -> (r: Result<String, String>)
    ensures
        match extract_reply_spec(
            success,
            status@,
            url@,
            match error_message {
                Some(m) => Some(m@),
                None => None,
            },
            body@,
            match content {
                Some(c) => Some(c@),
                None => None,
            },
        ) {
            Ok(t) => r matches Ok(s) && s@ == t,
            Err(e) => r matches Err(s) && s@ == e,
        },
{
    if !success {
        let mut out: Vec<char> = Vec::new();
        push_str(&mut out, "API 错误 ");
        push_str(&mut out, status);
        push_str(&mut out, "（POST ");
        push_str(&mut out, url);
        push_str(&mut out, "）: ");
        match error_message {
            Some(m) => push_str(&mut out, m),
            None => push_str(&mut out, body),
        }
        return Err(string_from(&out));
    }
    match content {
        Some(c) => Ok(String::from_str(c)),
        None => Err(String::from_str(MISSING_CONTENT_MESSAGE)),
    }
}

/// The fields of a chat reply that are read: the text of the first choice, the service's
/// error message, the total token count, the model name, and the whole reply written
/// back out as compact JSON.
pub struct ReplyFields {
    pub content: Option<String>,
    pub error_message: Option<String>,
    pub total_tokens: Option<u64>,
    pub model: Option<String>,
    pub json_text: String,
}

/// The mathematical value of reply fields, in the order of `ReplyFields`.
pub type ReplyFieldsView = (Option<Seq<char>>, Option<Seq<char>>, Option<u64>, Option<Seq<char>>, Seq<char>);

pub open spec fn opt_view(o: Option<String>) -> Option<Seq<char>> {
    match o {
        Some(s) => Some(s@),
        None => None,
    }
}

impl View for ReplyFields {
    type V = ReplyFieldsView;

    open spec fn view(&self) -> ReplyFieldsView {
        (opt_view(self.content), opt_view(self.error_message), self.total_tokens, opt_view(self.model), self.json_text@)
    }
}

/// What `serde_json` reads from the reply body `body` when it parses as JSON:
/// `choices[0].message.content`, `error.message` and `model` where they are strings,
/// `usage.total_tokens` where it is an unsigned integer, and the value's compact JSON text;
/// nothing when the body is not JSON.
pub uninterp spec fn json_reply_fields(body: Seq<u8>) -> Option<ReplyFieldsView>;

/// Parses `body` with `serde_json::from_slice` into a `serde_json::Value` and reads the
/// reply fields with `Value` indexing, `as_str`, `as_u64` and `to_string`. The result is
/// named: a JSON parse takes pages to state.
#[verifier::external_body]
fn reply_fields(body: &[u8]) -> (r: Option<ReplyFields>)
    ensures
        match r {
            Some(f) => json_reply_fields(body@) == Some(f@),
            None => json_reply_fields(body@) is None,
        },
{
    match serde_json::from_slice::<serde_json::Value>(body) {
        Ok(json) => Some(ReplyFields {
            content: json["choices"][0]["message"]["content"].as_str().map(String::from),
            error_message: json["error"]["message"].as_str().map(String::from),
            total_tokens: json["usage"]["total_tokens"].as_u64(),
            model: json["model"].as_str().map(String::from),
            json_text: json.to_string(),
        }),
        Err(_) => None,
    }
}

/// How a reply body that is not JSON is reported: the text of the HTTP client's decoding
/// error.
pub const DECODE_FAILURE: &'static str = "error decoding response body";

/// How the extraction command reports a reply body that is not JSON.
pub const EXTRACT_DECODE_FAILURE: &'static str = "解析响应失败: error decoding response body";

/// The text of a finished extraction request from its status and reply body: a body that is
/// not JSON is an error whatever the status; otherwise as `extract_reply_spec` reads the
/// parsed fields.
pub open spec fn extract_from_body_spec(
    success: bool,
    status: Seq<char>,
    url: Seq<char>,
    fields: Option<ReplyFieldsView>,
) -> Result<Seq<char>, Seq<char>> {
    match fields {
        None => Err(EXTRACT_DECODE_FAILURE@),
        Some(f) => extract_reply_spec(success, status, url, f.1, f.4, f.0),
    }
}

fn opt_str(o: &Option<String>) -> (r: Option<&str>)
    ensures
        match r {
            Some(t) => opt_view(*o) == Some(t@),
            None => o is None,
        },
{
    match o {
        Some(t) => Some(t.as_str()),
        None => None,
    }
}

/// Interprets the reply body of an extraction request.
pub fn extract_reply_from_body(success: bool, status: &str, url: &str, body: &[u8]) -> (r: Result<String, String>)
    ensures
        match extract_from_body_spec(success, status@, url@, json_reply_fields(body@)) {
            Ok(t) => r matches Ok(s) && s@ == t,
            Err(e) => r matches Err(s) && s@ == e,
        },
{
    match reply_fields(body) {
        None => Err(String::from_str(EXTRACT_DECODE_FAILURE)),
        Some(f) => extract_reply(
            success,
            status,
            url,
            opt_str(&f.error_message),
            f.json_text.as_str(),
            opt_str(&f.content),
        ),
    }
}

/// The message for a chat request the service refused.
pub fn api_error_message(status: &str, text: &str) -> (r: String)
    ensures
        r@ == "API error "@ + status@ + ": "@ + text@,
{
    let mut out: Vec<char> = Vec::new();
    push_str(&mut out, "API error ");
    push_str(&mut out, status);
    push_str(&mut out, ": ");
    push_str(&mut out, text);
    proof {
        reveal_strlit("API error ");
        reveal_strlit(": ");
    }
    string_from(&out)
}

impl OpenAiProvider {
    /// The response to a plain request from its reply body: an error when the body is not
    /// JSON, else the reply's text (empty when missing), token count (zero when missing, low
    /// 32 bits kept) and model (this provider's when missing).
    pub fn response_from_body(&self, body: &[u8], duration_ms: u64, conversation_id: Option<String>) -> (r: Result<
        AiResponse,
        String,
    >)
        ensures
            match json_reply_fields(body@) {
                None => r matches Err(e) && e@ == DECODE_FAILURE@,
                Some(f) => r matches Ok(a) && a.content@ == (match f.0 {
                    Some(c) => c,
                    None => Seq::empty(),
                }) && a.tokens_used == (match f.2 {
                    Some(t) => t as u32,
                    None => 0u32,
                }) && a.model@ == (match f.3 {
                    Some(m) => m,
                    None => self.model_spec(),
                }) && a.duration_ms == duration_ms && a.conversation_id == conversation_id,
            },
    {
        match reply_fields(body) {
            None => Err(String::from_str(DECODE_FAILURE)),
            Some(f) => Ok(
                self.response_from_reply(
                    opt_str(&f.content),
                    f.total_tokens,
                    opt_str(&f.model),
                    duration_ms,
                    conversation_id,
                ),
            ),
        }
    }
}

/// What a prompt template is for.
#[derive(Debug, Clone, Copy, PartialEq, Eq, Structural)]
pub enum PromptCategory {
    Summarize,
    Translate,
    ErrorAnalysis,
    ExtractTable,
    ExtractTodo,
    CodeAnalysis,
    UiReview,
    Custom,
}

/// A ready-made pair of prompts for one kind of screenshot question.
pub struct PromptTemplate {
    pub id: String,
    pub name: String,
    pub category: PromptCategory,
    pub system_prompt: String,
    pub user_prompt: String,
}

/// The ids and categories of the built-in templates, in order.
pub open spec fn builtin_template_ids() -> Seq<(Seq<char>, PromptCategory)> {
    seq![
        ("summarize"@, PromptCategory::Summarize),
        ("translate"@, PromptCategory::Translate),
        ("error_analysis"@, PromptCategory::ErrorAnalysis),
        ("extract_table"@, PromptCategory::ExtractTable),
    ]
}

fn template(id: &str, name: &str, category: PromptCategory, system_prompt: &str, user_prompt: &str) -> (t:
    PromptTemplate)
    ensures
        t.id@ == id@,
        t.name@ == name@,
        t.category == category,
        t.system_prompt@ == system_prompt@,
        t.user_prompt@ == user_prompt@,
{
    PromptTemplate {
        id: String::from_str(id),
        name: String::from_str(name),
        category,
        system_prompt: String::from_str(system_prompt),
        user_prompt: String::from_str(user_prompt),
    }
}

impl PromptTemplate {
    /// The built-in templates: summarise, translate, analyse an error, extract a table.
    pub fn builtin_templates() -> (ts: Vec<Self>)
        ensures
            ts@.len() == builtin_template_ids().len(),
            forall|i: int|
                0 <= i < ts@.len() ==> (#[trigger] ts@[i]).id@ == builtin_template_ids()[i].0
                    && ts@[i].category == builtin_template_ids()[i].1,
            ts@[0].name@ == "总结截图内容"@,
            ts@[0].system_prompt@ == "你是一个图片内容分析助手。请简洁准确地总结图片中的主要内容。"@,
            ts@[0].user_prompt@ == "请总结这张截图的内容。"@,
            ts@[1].name@ == "翻译截图内容"@,
            ts@[1].system_prompt@ == "你是一个翻译助手。请将图片中的文字翻译为中文，保持原文格式。"@,
            ts@[1].user_prompt@ == "请翻译这张截图中的文字内容。"@,
            ts@[2].name@ == "分析报错信息"@,
            ts@[2].system_prompt@ == "你是一个资深软件工程师。请分析截图中的错误信息，给出错误原因、排查步骤和修复建议。"@,
            ts@[2].user_prompt@ == "请分析这张截图中的报错信息，给出原因分析和排查步骤。"@,
            ts@[3].name@ == "提取表格"@,
            ts@[3].system_prompt@ == "你是一个数据提取助手。请从图片中提取表格数据，以 Markdown 表格格式输出。"@,
            ts@[3].user_prompt@ == "请提取这张截图中的表格数据。"@,
    {
        let mut ts: Vec<Self> = Vec::new();
        ts.push(
            template(
                "summarize",
                "总结截图内容",
                PromptCategory::Summarize,
                "你是一个图片内容分析助手。请简洁准确地总结图片中的主要内容。",
                "请总结这张截图的内容。",
            ),
        );
        ts.push(
            template(
                "translate",
                "翻译截图内容",
                PromptCategory::Translate,
                "你是一个翻译助手。请将图片中的文字翻译为中文，保持原文格式。",
                "请翻译这张截图中的文字内容。",
            ),
        );
        ts.push(
            template(
                "error_analysis",
                "分析报错信息",
                PromptCategory::ErrorAnalysis,
                "你是一个资深软件工程师。请分析截图中的错误信息，给出错误原因、排查步骤和修复建议。",
                "请分析这张截图中的报错信息，给出原因分析和排查步骤。",
            ),
        );
        ts.push(
            template(
                "extract_table",
                "提取表格",
                PromptCategory::ExtractTable,
                "你是一个数据提取助手。请从图片中提取表格数据，以 Markdown 表格格式输出。",
                "请提取这张截图中的表格数据。",
            ),
        );
        ts
    }
}

} // verus!
