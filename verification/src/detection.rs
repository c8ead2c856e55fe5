//! Script and language detection. The script classifier itself is an outside
//! collaborator; this module turns its answer into the closed [`Script`]
//! enumeration that pipeline registries are keyed by.

use vstd::prelude::*;

verus! {

/// Detected writing system of a text.
#[derive(Clone, Copy, Debug, PartialEq, Eq, Hash, Structural)]
pub enum Script {
    Arabic,
    Bengali,
    Cyrillic,
    Devanagari,
    Ethiopic,
    Georgian,
    Greek,
    Gujarati,
    Gurmukhi,
    Hangul,
    Hebrew,
    Hiragana,
    Kannada,
    Katakana,
    Khmer,
    Latin,
    Malayalam,
    Mandarin,
    Myanmar,
    Oriya,
    Sinhala,
    Tamil,
    Telugu,
    Thai,
    /// No script could be detected, or the detected one is not listed above.
    Other,
}

/// Linguistic classification. Detection is a placeholder that always answers
/// [`Language::Other`]; the variant set is an extension point.
#[derive(Clone, Copy, Debug, PartialEq, Eq, Hash, Structural)]
pub enum Language {
    English,
    Other,
}

/// The name of the script that the outside classifier detects for a text,
/// or the empty sequence when it cannot classify it. The answer depends on
/// the characters of the text alone.
pub uninterp spec fn detected_script_name(text: Seq<char>) -> Seq<char>;

/// Relies on `whatlang::detect_script` and `whatlang::Script::name`: the
/// detected script is a pure function of the text's characters, and `name`
/// returns its capitalized English name. The empty string stands for a text
/// whose script the classifier cannot determine.
#[verifier::external_body]
fn detect_script_name(text: &str) -> (r: String)
    ensures
        r@ == detected_script_name(text@),
{
    match whatlang::detect_script(text) {
        Some(s) => s.name().to_string(),
        None => String::new(),
    }
}

/// Whether two string slices hold the same characters.
fn str_eq(a: &str, b: &str) -> (r: bool)
    ensures
        r == (a@ == b@),
{
    let n = a.unicode_len();
    if n != b.unicode_len() {
        return false;
    }
    let mut i: usize = 0;
    while i < n
        invariant
            0 <= i <= n,
            n == a@.len(),
            n == b@.len(),
            forall|j: int| 0 <= j < i ==> a@[j] == b@[j],
        decreases n - i,
    {
        if a.get_char(i) != b.get_char(i) {
            return false;
        }
        i += 1;
    }
    proof {
        assert(a@ =~= b@);
    }
    true
}

/// The [`Script`] whose name is `n`; [`Script::Other`] for any other text.
pub open spec fn spec_script_from_name(n: Seq<char>) -> Script {
    if n == "Arabic"@ {
        Script::Arabic
    } else if n == "Bengali"@ {
        Script::Bengali
    } else if n == "Cyrillic"@ {
        Script::Cyrillic
    } else if n == "Devanagari"@ {
        Script::Devanagari
    } else if n == "Ethiopic"@ {
        Script::Ethiopic
    } else if n == "Georgian"@ {
        Script::Georgian
    } else if n == "Greek"@ {
        Script::Greek
    } else if n == "Gujarati"@ {
        Script::Gujarati
    } else if n == "Gurmukhi"@ {
        Script::Gurmukhi
    } else if n == "Hangul"@ {
        Script::Hangul
    } else if n == "Hebrew"@ {
        Script::Hebrew
    } else if n == "Hiragana"@ {
        Script::Hiragana
    } else if n == "Kannada"@ {
        Script::Kannada
    } else if n == "Katakana"@ {
        Script::Katakana
    } else if n == "Khmer"@ {
        Script::Khmer
    } else if n == "Latin"@ {
        Script::Latin
    } else if n == "Malayalam"@ {
        Script::Malayalam
    } else if n == "Mandarin"@ {
        Script::Mandarin
    } else if n == "Myanmar"@ {
        Script::Myanmar
    } else if n == "Oriya"@ {
        Script::Oriya
    } else if n == "Sinhala"@ {
        Script::Sinhala
    } else if n == "Tamil"@ {
        Script::Tamil
    } else if n == "Telugu"@ {
        Script::Telugu
    } else if n == "Thai"@ {
        Script::Thai
    } else {
        Script::Other
    }
}

/// Turns a script name into the matching [`Script`] variant.
fn script_from_name(n: &str) -> (r: Script)
    ensures
        r == spec_script_from_name(n@),
{
    if str_eq(n, "Arabic") {
        Script::Arabic
    } else if str_eq(n, "Bengali") {
        Script::Bengali
    } else if str_eq(n, "Cyrillic") {
        Script::Cyrillic
    } else if str_eq(n, "Devanagari") {
        Script::Devanagari
    } else if str_eq(n, "Ethiopic") {
        Script::Ethiopic
    } else if str_eq(n, "Georgian") {
        Script::Georgian
    } else if str_eq(n, "Greek") {
        Script::Greek
    } else if str_eq(n, "Gujarati") {
        Script::Gujarati
    } else if str_eq(n, "Gurmukhi") {
        Script::Gurmukhi
    } else if str_eq(n, "Hangul") {
        Script::Hangul
    } else if str_eq(n, "Hebrew") {
        Script::Hebrew
    } else if str_eq(n, "Hiragana") {
        Script::Hiragana
    } else if str_eq(n, "Kannada") {
        Script::Kannada
    } else if str_eq(n, "Katakana") {
        Script::Katakana
    } else if str_eq(n, "Khmer") {
        Script::Khmer
    } else if str_eq(n, "Latin") {
        Script::Latin
    } else if str_eq(n, "Malayalam") {
        Script::Malayalam
    } else if str_eq(n, "Mandarin") {
        Script::Mandarin
    } else if str_eq(n, "Myanmar") {
        Script::Myanmar
    } else if str_eq(n, "Oriya") {
        Script::Oriya
    } else if str_eq(n, "Sinhala") {
        Script::Sinhala
    } else if str_eq(n, "Tamil") {
        Script::Tamil
    } else if str_eq(n, "Telugu") {
        Script::Telugu
    } else if str_eq(n, "Thai") {
        Script::Thai
    } else {
        Script::Other
    }
}

/// The script the analyzer works with for a text: the classifier's answer,
/// or [`Script::Other`] when it has none.
pub open spec fn spec_detect_script(text: Seq<char>) -> Script {
    spec_script_from_name(detected_script_name(text))
}

/// Detects the script of `text`; [`Script::Other`] when none is detected.
pub fn detect_script(text: &str) -> (r: Script)
    ensures
        r == spec_detect_script(text@),
{
    let name = detect_script_name(text);
    script_from_name(name.as_str())
}

/// Detects the language of a text. Currently a placeholder that answers
/// [`Language::Other`] for every input.
pub fn detect_lang(_text: &str) -> (r: Language)
    ensures
        r == Language::Other,
{
    Language::Other
}

} // verus!
