use vstd::prelude::*;

verus! {

/// Kinds of sensitive data a screenshot's text may hold.
#[derive(Debug, Clone, Copy, PartialEq, Eq, Structural)]
pub enum SensitiveType {
    Phone,
    Email,
    IdCard,
    BankCard,
    IpAddress,
    Username,
    Hostname,
    Token,
    ApiKey,
    QrCode,
}

/// One piece of sensitive text: its kind, its byte range and the text itself.
pub struct SensitiveMatch {
    pub sensitive_type: SensitiveType,
    pub start: usize,
    pub end: usize,
    pub matched_text: String,
}

/// How strictly privacy is guarded.
#[derive(Debug, Clone, Copy, PartialEq, Eq, Structural)]
pub enum PrivacyMode {
    Normal,
    Strict,
}

/// Privacy preferences.
#[derive(Debug, Clone, Copy, PartialEq, Eq, Structural)]
pub struct PrivacyConfig {
    pub mode: PrivacyMode,
    pub allow_cloud_upload: bool,
    pub save_history: bool,
    pub encrypt_history: bool,
    pub auto_redact_before_share: bool,
}

impl Default for PrivacyConfig {
    fn default() -> (c: Self)
        ensures
            c == (PrivacyConfig {
                mode: PrivacyMode::Normal,
                allow_cloud_upload: false,
                save_history: true,
                encrypt_history: false,
                auto_redact_before_share: false,
            }),
    {
        PrivacyConfig {
            mode: PrivacyMode::Normal,
            allow_cloud_upload: false,
            save_history: true,
            encrypt_history: false,
            auto_redact_before_share: false,
        }
    }
}

/// What the `regex` crate finds for `pattern` in `text`: `None` when the pattern does not
/// compile, else each leftmost-first non-overlapping match of `Regex::find_iter` in order, as
/// its byte range and its text.
pub uninterp spec fn regex_find_all(pattern: Seq<char>, text: Seq<char>) -> Option<Seq<(usize, usize, Seq<char>)>>;

/// A match as plain values: byte range and text.
pub struct Found {
    pub start: usize,
    pub end: usize,
    pub text: String,
}

pub open spec fn found_view(f: Found) -> (usize, usize, Seq<char>) {
    (f.start, f.end, f.text@)
}

/// Compiles `pattern` with `regex::Regex::new` and collects `Regex::find_iter(text)`, each
/// match by `Match::start`, `Match::end` and `Match::as_str`. The result is named; the
/// `regex` documentation says no more of it than the name states.
#[verifier::external_body]
fn find_all(pattern: &str, text: &str) -> (r: Option<Vec<Found>>)
    ensures
        match r {
            Some(v) => regex_find_all(pattern@, text@) == Some(v@.map_values(|f: Found| found_view(f))),
            None => regex_find_all(pattern@, text@) is None,
        },
{
    match regex::Regex::new(pattern) {
        Ok(re) => Some(re.find_iter(text).map(|m| Found { start: m.start(), end: m.end(), text: m.as_str().to_string() }).collect()),
        Err(_) => None,
    }
}

/// The patterns the detector looks for, in order, with the kind each one reveals.
pub open spec fn builtin_patterns() -> Seq<(SensitiveType, Seq<char>)> {
    seq![
        (SensitiveType::Phone, "1[3-9]\\d{9}"@),
        (SensitiveType::Email, "[a-zA-Z0-9._%+-]+@[a-zA-Z0-9.-]+\\.[a-zA-Z]{2,}"@),
        (SensitiveType::IpAddress, "\\b(?:\\d{1,3}\\.){3}\\d{1,3}\\b"@),
        (SensitiveType::IdCard, "\\b\\d{17}[\\dXx]\\b"@),
        (SensitiveType::Token, "(?i)(token|key|secret|password)\\s*[=:]\\s*\\S+"@),
    ]
}

/// The matches of one pattern, each tagged with its kind.
pub open spec fn tagged(t: SensitiveType, found: Option<Seq<(usize, usize, Seq<char>)>>) -> Seq<(SensitiveType, usize, usize, Seq<char>)> {
    match found {
        Some(fs) => fs.map_values(|f: (usize, usize, Seq<char>)| (t, f.0, f.1, f.2)),
        None => Seq::empty(),
    }
}

/// The matches of patterns `0 .. n`, pattern by pattern.
pub open spec fn detections(ps: Seq<(SensitiveType, Seq<char>)>, text: Seq<char>, n: int) -> Seq<(SensitiveType, usize, usize, Seq<char>)>
    decreases n,
{
    if n <= 0 {
        Seq::empty()
    } else {
        detections(ps, text, n - 1) + tagged(ps[n - 1].0, regex_find_all(ps[n - 1].1, text))
    }
}

pub open spec fn match_view(m: SensitiveMatch) -> (SensitiveType, usize, usize, Seq<char>) {
    (m.sensitive_type, m.start, m.end, m.matched_text@)
}

/// Finds phone numbers, e-mail addresses, IP addresses, identity-card numbers and tokens in
/// text.
pub struct SensitiveDataDetector {
    patterns: Vec<(SensitiveType, String)>,
}

impl SensitiveDataDetector {
    pub closed spec fn patterns_spec(&self) -> Seq<(SensitiveType, Seq<char>)> {
        self.patterns@.map_values(|p: (SensitiveType, String)| (p.0, p.1@))
    }

    pub fn new() -> (d: Self)
        ensures
            d.patterns_spec() == builtin_patterns(),
    {
        let mut patterns: Vec<(SensitiveType, String)> = Vec::new();
        patterns.push((SensitiveType::Phone, String::from_str("1[3-9]\\d{9}")));
        patterns.push((SensitiveType::Email, String::from_str("[a-zA-Z0-9._%+-]+@[a-zA-Z0-9.-]+\\.[a-zA-Z]{2,}")));
        patterns.push((SensitiveType::IpAddress, String::from_str("\\b(?:\\d{1,3}\\.){3}\\d{1,3}\\b")));
        patterns.push((SensitiveType::IdCard, String::from_str("\\b\\d{17}[\\dXx]\\b")));
        patterns.push((SensitiveType::Token, String::from_str("(?i)(token|key|secret|password)\\s*[=:]\\s*\\S+")));
        let d = SensitiveDataDetector { patterns };
        proof {
            assert(d.patterns_spec() =~= builtin_patterns());
        }
        d
    }

    /// Every match of every pattern in `text`, pattern by pattern in order.
    pub fn detect(&self, text: &str) -> (r: Vec<SensitiveMatch>)
        ensures
            r@.map_values(|m: SensitiveMatch| match_view(m)) == detections(
                self.patterns_spec(),
                text@,
                self.patterns_spec().len() as int,
            ),
    {
        let ghost ps = self.patterns_spec();
        let mut out: Vec<SensitiveMatch> = Vec::new();
        let mut i: usize = 0;
        while i < self.patterns.len()
            invariant
                ps == self.patterns_spec(),
                i <= self.patterns.len(),
                out@.map_values(|m: SensitiveMatch| match_view(m)) == detections(ps, text@, i as int),
            decreases self.patterns.len() - i,
        {
            let stype = self.patterns[i].0;
            let ghost before = out@.map_values(|m: SensitiveMatch| match_view(m));
            proof {
                assert(ps[i as int] == (stype, self.patterns@[i as int].1@));
            }
            match find_all(self.patterns[i].1.as_str(), text) {
                Some(found) => {
                    let ghost fv = found@.map_values(|f: Found| found_view(f));
                    let mut k: usize = 0;
                    while k < found.len()
                        invariant
                            k <= found.len(),
                            fv == found@.map_values(|f: Found| found_view(f)),
                            out@.map_values(|m: SensitiveMatch| match_view(m)) == before + tagged(stype, Some(fv.take(k as int))),
                        decreases found.len() - k,
                    {
                        let f = &found[k];
                        let m = SensitiveMatch { sensitive_type: stype, start: f.start, end: f.end, matched_text: f.text.clone() };
                        proof {
                            assert(fv.take(k + 1) == fv.take(k as int).push(fv[k as int]));
                            assert(tagged(stype, Some(fv.take(k + 1))) =~= tagged(stype, Some(fv.take(k as int))).push(match_view(m)));
                            assert(out@.push(m).map_values(|m: SensitiveMatch| match_view(m)) =~= out@.map_values(
                                |m: SensitiveMatch| match_view(m),
                            ).push(match_view(m)));
                        }
                        out.push(m);
                        k = k + 1;
                    }
                    proof {
                        assert(fv.take(found.len() as int) == fv);
                    }
                },
                None => {
                    proof {
                        assert(tagged(stype, None) =~= Seq::empty());
                        assert(before + Seq::empty() == before);
                    }
                },
            }
            i = i + 1;
        }
        out
    }
}

/// A Chinese resident identity number: eighteen characters, seventeen digits and then a check
/// character that is a digit or `X`.
pub open spec fn is_resident_id(s: Seq<char>) -> bool {
    &&& s.len() == 18
    &&& forall|i: int| 0 <= i < s.len() - 1 ==> '0' <= #[trigger] s[i] <= '9'
    &&& ('0' <= s[s.len() - 1] <= '9' || s[s.len() - 1] == 'X' || s[s.len() - 1] == 'x')
}

/// The decimal digits of `n`.
pub open spec fn decimal(n: nat) -> Seq<char>
    decreases n,
{
    let d = (('0' as nat) + n % 10) as char;
    if n < 10 {
        seq![d]
    } else {
        decimal(n / 10).push(d)
    }
}

/// The pattern of a word standing alone that is `len - 1` digits and a check character.
pub open spec fn id_number_pattern(len: nat) -> Seq<char> {
    "\\b\\d{"@ + decimal((len - 1) as nat) + "}[\\dXx]\\b"@
}

/// The detector looks for identity numbers with a pattern sized to them: its identity-card
/// pattern is a word of exactly as many digits as an identity number has before its check
/// character, followed by that check character (a digit or `X`).
pub proof fn lemma_id_card_pattern_fits_resident_ids(id: Seq<char>)
    requires
        is_resident_id(id),
    ensures
        builtin_patterns()[3].0 == SensitiveType::IdCard,
        builtin_patterns()[3].1 == id_number_pattern(id.len()),
{
    reveal_strlit("\\b\\d{");
    reveal_strlit("}[\\dXx]\\b");
    reveal_strlit("\\b\\d{17}[\\dXx]\\b");
    assert(decimal(1) == seq!['1']);
    assert(decimal(17) == seq!['1', '7']);
    assert(id_number_pattern(id.len()) =~= "\\b\\d{17}[\\dXx]\\b"@);
}

/// A mainland mobile number: eleven digits, a `1` and then a digit from 3 to 9.
pub open spec fn is_mobile_number(s: Seq<char>) -> bool {
    &&& s.len() == 11
    &&& s[0] == '1'
    &&& '3' <= s[1] <= '9'
    &&& forall|i: int| 2 <= i < s.len() ==> '0' <= #[trigger] s[i] <= '9'
}

/// The detector's phone pattern is sized to mobile numbers: a `1`, a digit from 3 to 9, and
/// then as many digits as a mobile number has left.
pub proof fn lemma_phone_pattern_fits_mobile_numbers(n: Seq<char>)
    requires
        is_mobile_number(n),
    ensures
        builtin_patterns()[0].0 == SensitiveType::Phone,
        builtin_patterns()[0].1 == "1[3-9]\\d{"@ + decimal((n.len() - 2) as nat) + "}"@,
{
    reveal_strlit("1[3-9]\\d{");
    reveal_strlit("}");
    reveal_strlit("1[3-9]\\d{9}");
    assert(decimal(9) == seq!['9']);
    assert("1[3-9]\\d{"@ + decimal(9) + "}"@ =~= "1[3-9]\\d{9}"@);
}

} // verus!
