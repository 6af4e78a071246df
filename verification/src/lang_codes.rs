//! Language codes: their canonical spelling and the reference list of
//! known codes.
//!
//! A code is a language subtag, optionally followed by a region subtag.
//! Canonical spelling has the language in lower case, the region in upper
//! case and `-` between them.

use vstd::prelude::*;
use vstd::string::StringExecFns;
use vstd::utf8::is_ascii_chars;
use crate::text::{
    ascii_lower_char, ascii_lowercase, ascii_uppercase, chars_of, lowercase, owned, same_chars,
    string_of, string_of_range, texts, uppercase,
};

verus! {

// ---------------------------------------------------------------------------
// Canonical spelling
// ---------------------------------------------------------------------------

/// `s` with every `_` replaced by `-`.
pub open spec fn hyphenated(s: Seq<char>) -> Seq<char> {
    Seq::new(
        s.len(),
        |i: int|
            if s[i] == '_' {
                '-'
            } else {
                s[i]
            },
    )
}

/// The position of the first `c` in `s`, or the length of `s` where there
/// is none.
pub open spec fn index_of(s: Seq<char>, c: char) -> int
    decreases s.len(),
{
    if s.len() == 0 {
        0
    } else if s[0] == c {
        0
    } else {
        1 + index_of(s.drop_first(), c)
    }
}

/// The canonical spelling of a language code: `_` counts as `-`; what
/// stands before the first `-` is lowercased; what stands after it, if
/// there is one, is uppercased.
pub open spec fn normalized(code: Seq<char>) -> Seq<char> {
    let c = hyphenated(code);
    let i = index_of(c, '-');
    if i < c.len() {
        lowercase(c.take(i)) + seq!['-'] + uppercase(c.skip(i + 1))
    } else {
        lowercase(c)
    }
}

pub proof fn lemma_index_of(s: Seq<char>, c: char)
    ensures
        0 <= index_of(s, c) <= s.len(),
        forall|j: int| 0 <= j < index_of(s, c) ==> s[j] != c,
        index_of(s, c) < s.len() ==> s[index_of(s, c)] == c,
    decreases s.len(),
{
    if s.len() > 0 && s[0] != c {
        let t = s.drop_first();
        lemma_index_of(t, c);
        assert forall|j: int| 0 <= j < index_of(s, c) implies s[j] != c by {
            if j > 0 {
                assert(s[j] == t[j - 1]);
            }
        }
    }
}

pub proof fn lemma_index_of_is(s: Seq<char>, c: char, i: int)
    requires
        0 <= i <= s.len(),
        forall|j: int| 0 <= j < i ==> s[j] != c,
        i < s.len() ==> s[i] == c,
    ensures
        index_of(s, c) == i,
{
    lemma_index_of(s, c);
}

/// Brings a language code into canonical spelling.
pub fn normalize_lang_code(code: &str) -> (r: String)
    ensures
        r@ == normalized(code@),
{
    let raw = chars_of(code);
    let mut c: Vec<char> = Vec::new();
    let mut k: usize = 0;
    while k < raw.len()
        invariant
            k <= raw.len(),
            c@ == hyphenated(raw@).take(k as int),
        decreases raw.len() - k,
    {
        let ch = if raw[k] == '_' {
            '-'
        } else {
            raw[k]
        };
        c.push(ch);
        assert(hyphenated(raw@).take(k + 1) == hyphenated(raw@).take(k as int).push(ch));
        k = k + 1;
    }
    assert(hyphenated(raw@).take(raw.len() as int) == hyphenated(raw@));
    let mut i: usize = 0;
    while i < c.len() && c[i] != '-'
        invariant
            i <= c.len(),
            forall|j: int| 0 <= j < i ==> c@[j] != '-',
        decreases c.len() - i,
    {
        i = i + 1;
    }
    proof {
        lemma_index_of_is(c@, '-', i as int);
    }
    if i < c.len() {
        let lang = string_of_range(&c, 0, i);
        let region = string_of_range(&c, i + 1, c.len());
        assert(c@.subrange(0, i as int) == c@.take(i as int));
        assert(c@.subrange(i + 1, c.len() as int) == c@.skip(i + 1));
        let mut out = lang.as_str().to_lowercase();
        out.push('-');
        out.append(region.as_str().to_uppercase().as_str());
        out
    } else {
        let whole = string_of(&c);
        whole.as_str().to_lowercase()
    }
}

/// A code that is spelled canonically already: ASCII only, no `_`, no
/// upper-case letter before the first `-` and no lower-case letter after it.
pub open spec fn is_canonical(code: Seq<char>) -> bool {
    let i = index_of(code, '-');
    &&& is_ascii_chars(code)
    &&& forall|j: int| 0 <= j < code.len() ==> code[j] != '_'
    &&& forall|j: int| 0 <= j < i && j < code.len() ==> !('A' <= code[j] && code[j] <= 'Z')
    &&& forall|j: int| i < j < code.len() ==> !('a' <= code[j] && code[j] <= 'z')
}

/// Normalizing is idempotent on canonical codes: a code that is spelled
/// canonically comes back unchanged.
pub proof fn lemma_canonical_code_unchanged(code: Seq<char>)
    requires
        is_canonical(code),
    ensures
        normalized(code) == code,
{
    let c = hyphenated(code);
    assert(c =~= code);
    let i = index_of(code, '-');
    lemma_index_of(code, '-');
    if i < code.len() {
        let lang = code.take(i);
        let region = code.skip(i + 1);
        assert(is_ascii_chars(lang));
        assert(is_ascii_chars(region));
        assert(ascii_lowercase(lang) =~= lang);
        assert(ascii_uppercase(region) =~= region) by {
            assert forall|j: int| 0 <= j < region.len() implies #[trigger] ascii_uppercase(region)[j]
                == region[j] by {
                assert(region[j] == code[i + 1 + j]);
            }
        }
        assert(lang + seq!['-'] + region =~= code);
    } else {
        assert(ascii_lowercase(code) =~= code);
    }
}

/// The canonical spelling of a code made of ASCII characters is canonical,
/// so normalizing it once more changes nothing.
pub proof fn lemma_normalized_is_canonical(code: Seq<char>)
    requires
        is_ascii_chars(code),
    ensures
        is_canonical(normalized(code)),
        normalized(normalized(code)) == normalized(code),
{
    let c = hyphenated(code);
    let i = index_of(c, '-');
    let n = normalized(code);
    lemma_index_of(c, '-');
    assert(is_ascii_chars(c));
    if i < c.len() {
        let lang = c.take(i);
        let region = c.skip(i + 1);
        assert(is_ascii_chars(lang));
        assert(is_ascii_chars(region));
        let low = ascii_lowercase(lang);
        let up = ascii_uppercase(region);
        assert(n == low + seq!['-'] + up);
        assert(n.len() == c.len());
        assert forall|j: int| 0 <= j < n.len() implies '\0' <= #[trigger] n[j] <= '\u{7f}' && n[j]
            != '_' && (j < i ==> !('A' <= n[j] && n[j] <= 'Z') && n[j] != '-') && (j > i ==> !('a'
            <= n[j] && n[j] <= 'z')) by {
            if j < i {
                assert(n[j] == low[j]);
                assert(lang[j] == c[j]);
            } else if j > i {
                assert(n[j] == up[j - i - 1]);
                assert(region[j - i - 1] == c[j]);
            }
        }
        assert(n[i] == '-');
        lemma_index_of_is(n, '-', i);
    } else {
        assert(n == ascii_lowercase(c));
        assert forall|j: int| 0 <= j < n.len() implies '\0' <= #[trigger] n[j] <= '\u{7f}' && n[j]
            != '_' && n[j] != '-' && !('A' <= n[j] && n[j] <= 'Z') by {
            assert(n[j] == ascii_lower_char(c[j]));
        }
        lemma_index_of_is(n, '-', n.len() as int);
    }
    lemma_canonical_code_unchanged(n);
}

// ---------------------------------------------------------------------------
// The reference list
// ---------------------------------------------------------------------------
pub open spec fn known_language_1(s: Seq<char>) -> bool {
    ||| s == "af"@
    ||| s == "ar"@
    ||| s == "az"@
    ||| s == "be"@
    ||| s == "bg"@
    ||| s == "bs"@
    ||| s == "ca"@
    ||| s == "cs"@
    ||| s == "cy"@
    ||| s == "da"@
    ||| s == "de"@
    ||| s == "dv"@
    ||| s == "el"@
    ||| s == "en"@
    ||| s == "eo"@
    ||| s == "es"@
    ||| s == "et"@
    ||| s == "eu"@
    ||| s == "fa"@
    ||| s == "fi"@
    ||| s == "fo"@
    ||| s == "fr"@
    ||| s == "gl"@
    ||| s == "gu"@
    ||| s == "he"@
    ||| s == "hi"@
    ||| s == "hr"@
    ||| s == "hu"@
}

pub open spec fn known_language_2(s: Seq<char>) -> bool {
    ||| s == "hy"@
    ||| s == "id"@
    ||| s == "is"@
    ||| s == "it"@
    ||| s == "ja"@
    ||| s == "ka"@
    ||| s == "kk"@
    ||| s == "kn"@
    ||| s == "ko"@
    ||| s == "kok"@
    ||| s == "ky"@
    ||| s == "lt"@
    ||| s == "lv"@
    ||| s == "mi"@
    ||| s == "mk"@
    ||| s == "mn"@
    ||| s == "mr"@
    ||| s == "ms"@
    ||| s == "mt"@
    ||| s == "nb"@
    ||| s == "nl"@
    ||| s == "nn"@
    ||| s == "ns"@
    ||| s == "pa"@
    ||| s == "pl"@
    ||| s == "ps"@
    ||| s == "pt"@
    ||| s == "qu"@
}

pub open spec fn known_language_3(s: Seq<char>) -> bool {
    ||| s == "ro"@
    ||| s == "ru"@
    ||| s == "sa"@
    ||| s == "se"@
    ||| s == "sk"@
    ||| s == "sl"@
    ||| s == "sq"@
    ||| s == "sr"@
    ||| s == "sv"@
    ||| s == "sw"@
    ||| s == "syr"@
    ||| s == "ta"@
    ||| s == "te"@
    ||| s == "th"@
    ||| s == "tl"@
    ||| s == "tn"@
    ||| s == "tr"@
    ||| s == "tt"@
    ||| s == "ts"@
    ||| s == "uk"@
    ||| s == "ur"@
    ||| s == "uz"@
    ||| s == "vi"@
    ||| s == "xh"@
    ||| s == "zh"@
    ||| s == "zu"@
}

pub open spec fn known_regional_1(s: Seq<char>) -> bool {
    ||| s == "af-ZA"@
    ||| s == "ar-AE"@
    ||| s == "ar-BH"@
    ||| s == "ar-DZ"@
    ||| s == "ar-EG"@
    ||| s == "ar-IQ"@
    ||| s == "ar-JO"@
    ||| s == "ar-KW"@
    ||| s == "ar-LB"@
    ||| s == "ar-LY"@
    ||| s == "ar-MA"@
    ||| s == "ar-OM"@
    ||| s == "ar-QA"@
    ||| s == "ar-SA"@
    ||| s == "ar-SY"@
    ||| s == "ar-TN"@
    ||| s == "ar-YE"@
    ||| s == "az-AZ"@
    ||| s == "be-BY"@
    ||| s == "bg-BG"@
    ||| s == "bs-BA"@
    ||| s == "ca-ES"@
    ||| s == "cs-CZ"@
    ||| s == "cy-GB"@
    ||| s == "da-DK"@
    ||| s == "de-AT"@
    ||| s == "de-CH"@
}

pub open spec fn known_regional_2(s: Seq<char>) -> bool {
    ||| s == "de-DE"@
    ||| s == "de-LI"@
    ||| s == "de-LU"@
    ||| s == "dv-MV"@
    ||| s == "el-GR"@
    ||| s == "en-AU"@
    ||| s == "en-BZ"@
    ||| s == "en-CA"@
    ||| s == "en-CB"@
    ||| s == "en-GB"@
    ||| s == "en-IE"@
    ||| s == "en-JM"@
    ||| s == "en-NZ"@
    ||| s == "en-PH"@
    ||| s == "en-TT"@
    ||| s == "en-US"@
    ||| s == "en-ZA"@
    ||| s == "en-ZW"@
    ||| s == "es-AR"@
    ||| s == "es-BO"@
    ||| s == "es-CL"@
    ||| s == "es-CO"@
    ||| s == "es-CR"@
    ||| s == "es-DO"@
    ||| s == "es-EC"@
    ||| s == "es-ES"@
    ||| s == "es-GT"@
}

pub open spec fn known_regional_3(s: Seq<char>) -> bool {
    ||| s == "es-HN"@
    ||| s == "es-MX"@
    ||| s == "es-NI"@
    ||| s == "es-PA"@
    ||| s == "es-PE"@
    ||| s == "es-PR"@
    ||| s == "es-PY"@
    ||| s == "es-SV"@
    ||| s == "es-UY"@
    ||| s == "es-VE"@
    ||| s == "et-EE"@
    ||| s == "eu-ES"@
    ||| s == "fa-IR"@
    ||| s == "fi-FI"@
    ||| s == "fo-FO"@
    ||| s == "fr-BE"@
    ||| s == "fr-CA"@
    ||| s == "fr-CH"@
    ||| s == "fr-FR"@
    ||| s == "fr-LU"@
    ||| s == "fr-MC"@
    ||| s == "gl-ES"@
    ||| s == "gu-IN"@
    ||| s == "he-IL"@
    ||| s == "hi-IN"@
    ||| s == "hr-BA"@
    ||| s == "hr-HR"@
}

pub open spec fn known_regional_4(s: Seq<char>) -> bool {
    ||| s == "hu-HU"@
    ||| s == "hy-AM"@
    ||| s == "id-ID"@
    ||| s == "is-IS"@
    ||| s == "it-CH"@
    ||| s == "it-IT"@
    ||| s == "ja-JP"@
    ||| s == "ka-GE"@
    ||| s == "kk-KZ"@
    ||| s == "kn-IN"@
    ||| s == "ko-KR"@
    ||| s == "kok-IN"@
    ||| s == "ky-KG"@
    ||| s == "lt-LT"@
    ||| s == "lv-LV"@
    ||| s == "mi-NZ"@
    ||| s == "mk-MK"@
    ||| s == "mn-MN"@
    ||| s == "mr-IN"@
    ||| s == "ms-BN"@
    ||| s == "ms-MY"@
    ||| s == "mt-MT"@
    ||| s == "nb-NO"@
    ||| s == "nl-BE"@
    ||| s == "nl-NL"@
    ||| s == "nn-NO"@
    ||| s == "ns-ZA"@
}

pub open spec fn known_regional_5(s: Seq<char>) -> bool {
    ||| s == "pa-IN"@
    ||| s == "pl-PL"@
    ||| s == "ps-AR"@
    ||| s == "pt-BR"@
    ||| s == "pt-PT"@
    ||| s == "qu-BO"@
    ||| s == "qu-EC"@
    ||| s == "qu-PE"@
    ||| s == "ro-RO"@
    ||| s == "ru-RU"@
    ||| s == "sa-IN"@
    ||| s == "se-FI"@
    ||| s == "se-NO"@
    ||| s == "se-SE"@
    ||| s == "sk-SK"@
    ||| s == "sl-SI"@
    ||| s == "sq-AL"@
    ||| s == "sr-BA"@
    ||| s == "sr-SP"@
    ||| s == "sv-FI"@
    ||| s == "sv-SE"@
    ||| s == "sw-KE"@
    ||| s == "syr-SY"@
    ||| s == "ta-IN"@
    ||| s == "te-IN"@
    ||| s == "th-TH"@
    ||| s == "tl-PH"@
}

pub open spec fn known_regional_6(s: Seq<char>) -> bool {
    ||| s == "tn-ZA"@
    ||| s == "tr-TR"@
    ||| s == "tt-RU"@
    ||| s == "uk-UA"@
    ||| s == "ur-PK"@
    ||| s == "uz-UZ"@
    ||| s == "vi-VN"@
    ||| s == "xh-ZA"@
    ||| s == "zh-CN"@
    ||| s == "zh-HK"@
    ||| s == "zh-MO"@
    ||| s == "zh-SG"@
    ||| s == "zh-TW"@
    ||| s == "zu-ZA"@
}

/// Whether `s` stands, spelled exactly so, in the reference list of ISO
/// language and language-region codes.
pub open spec fn in_reference_list(s: Seq<char>) -> bool {
    ||| known_language_1(s)
    ||| known_language_2(s)
    ||| known_language_3(s)
    ||| known_regional_1(s)
    ||| known_regional_2(s)
    ||| known_regional_3(s)
    ||| known_regional_4(s)
    ||| known_regional_5(s)
    ||| known_regional_6(s)
}

/// Whether a code, brought into canonical spelling, is a known one.
pub open spec fn is_known(code: Seq<char>) -> bool {
    in_reference_list(normalized(code))
}

/// A code made of ASCII characters is known just where its canonical
/// spelling is.
pub proof fn lemma_known_after_normalizing(code: Seq<char>)
    requires
        is_ascii_chars(code),
    ensures
        is_known(normalized(code)) == is_known(code),
{
    lemma_normalized_is_canonical(code);
}

fn spells(c: &Vec<char>, literal: &str) -> (r: bool)
    ensures
        r == (c@ == literal@),
{
    let l = chars_of(literal);
    same_chars(c, &l)
}

fn is_language_1(c: &Vec<char>) -> (r: bool)
    ensures
        r == known_language_1(c@),
{
    spells(c, "af")
        || spells(c, "ar")
        || spells(c, "az")
        || spells(c, "be")
        || spells(c, "bg")
        || spells(c, "bs")
        || spells(c, "ca")
        || spells(c, "cs")
        || spells(c, "cy")
        || spells(c, "da")
        || spells(c, "de")
        || spells(c, "dv")
        || spells(c, "el")
        || spells(c, "en")
        || spells(c, "eo")
        || spells(c, "es")
        || spells(c, "et")
        || spells(c, "eu")
        || spells(c, "fa")
        || spells(c, "fi")
        || spells(c, "fo")
        || spells(c, "fr")
        || spells(c, "gl")
        || spells(c, "gu")
        || spells(c, "he")
        || spells(c, "hi")
        || spells(c, "hr")
        || spells(c, "hu")
}

fn is_language_2(c: &Vec<char>) -> (r: bool)
    ensures
        r == known_language_2(c@),
{
    spells(c, "hy")
        || spells(c, "id")
        || spells(c, "is")
        || spells(c, "it")
        || spells(c, "ja")
        || spells(c, "ka")
        || spells(c, "kk")
        || spells(c, "kn")
        || spells(c, "ko")
        || spells(c, "kok")
        || spells(c, "ky")
        || spells(c, "lt")
        || spells(c, "lv")
        || spells(c, "mi")
        || spells(c, "mk")
        || spells(c, "mn")
        || spells(c, "mr")
        || spells(c, "ms")
        || spells(c, "mt")
        || spells(c, "nb")
        || spells(c, "nl")
        || spells(c, "nn")
        || spells(c, "ns")
        || spells(c, "pa")
        || spells(c, "pl")
        || spells(c, "ps")
        || spells(c, "pt")
        || spells(c, "qu")
}

fn is_language_3(c: &Vec<char>) -> (r: bool)
    ensures
        r == known_language_3(c@),
{
    spells(c, "ro")
        || spells(c, "ru")
        || spells(c, "sa")
        || spells(c, "se")
        || spells(c, "sk")
        || spells(c, "sl")
        || spells(c, "sq")
        || spells(c, "sr")
        || spells(c, "sv")
        || spells(c, "sw")
        || spells(c, "syr")
        || spells(c, "ta")
        || spells(c, "te")
        || spells(c, "th")
        || spells(c, "tl")
        || spells(c, "tn")
        || spells(c, "tr")
        || spells(c, "tt")
        || spells(c, "ts")
        || spells(c, "uk")
        || spells(c, "ur")
        || spells(c, "uz")
        || spells(c, "vi")
        || spells(c, "xh")
        || spells(c, "zh")
        || spells(c, "zu")
}

fn is_regional_1(c: &Vec<char>) -> (r: bool)
    ensures
        r == known_regional_1(c@),
{
    spells(c, "af-ZA")
        || spells(c, "ar-AE")
        || spells(c, "ar-BH")
        || spells(c, "ar-DZ")
        || spells(c, "ar-EG")
        || spells(c, "ar-IQ")
        || spells(c, "ar-JO")
        || spells(c, "ar-KW")
        || spells(c, "ar-LB")
        || spells(c, "ar-LY")
        || spells(c, "ar-MA")
        || spells(c, "ar-OM")
        || spells(c, "ar-QA")
        || spells(c, "ar-SA")
        || spells(c, "ar-SY")
        || spells(c, "ar-TN")
        || spells(c, "ar-YE")
        || spells(c, "az-AZ")
        || spells(c, "be-BY")
        || spells(c, "bg-BG")
        || spells(c, "bs-BA")
        || spells(c, "ca-ES")
        || spells(c, "cs-CZ")
        || spells(c, "cy-GB")
        || spells(c, "da-DK")
        || spells(c, "de-AT")
        || spells(c, "de-CH")
}

fn is_regional_2(c: &Vec<char>) -> (r: bool)
    ensures
        r == known_regional_2(c@),
{
    spells(c, "de-DE")
        || spells(c, "de-LI")
        || spells(c, "de-LU")
        || spells(c, "dv-MV")
        || spells(c, "el-GR")
        || spells(c, "en-AU")
        || spells(c, "en-BZ")
        || spells(c, "en-CA")
        || spells(c, "en-CB")
        || spells(c, "en-GB")
        || spells(c, "en-IE")
        || spells(c, "en-JM")
        || spells(c, "en-NZ")
        || spells(c, "en-PH")
        || spells(c, "en-TT")
        || spells(c, "en-US")
        || spells(c, "en-ZA")
        || spells(c, "en-ZW")
        || spells(c, "es-AR")
        || spells(c, "es-BO")
        || spells(c, "es-CL")
        || spells(c, "es-CO")
        || spells(c, "es-CR")
        || spells(c, "es-DO")
        || spells(c, "es-EC")
        || spells(c, "es-ES")
        || spells(c, "es-GT")
}

fn is_regional_3(c: &Vec<char>) -> (r: bool)
    ensures
        r == known_regional_3(c@),
{
    spells(c, "es-HN")
        || spells(c, "es-MX")
        || spells(c, "es-NI")
        || spells(c, "es-PA")
        || spells(c, "es-PE")
        || spells(c, "es-PR")
        || spells(c, "es-PY")
        || spells(c, "es-SV")
        || spells(c, "es-UY")
        || spells(c, "es-VE")
        || spells(c, "et-EE")
        || spells(c, "eu-ES")
        || spells(c, "fa-IR")
        || spells(c, "fi-FI")
        || spells(c, "fo-FO")
        || spells(c, "fr-BE")
        || spells(c, "fr-CA")
        || spells(c, "fr-CH")
        || spells(c, "fr-FR")
        || spells(c, "fr-LU")
        || spells(c, "fr-MC")
        || spells(c, "gl-ES")
        || spells(c, "gu-IN")
        || spells(c, "he-IL")
        || spells(c, "hi-IN")
        || spells(c, "hr-BA")
        || spells(c, "hr-HR")
}

fn is_regional_4(c: &Vec<char>) -> (r: bool)
    ensures
        r == known_regional_4(c@),
{
    spells(c, "hu-HU")
        || spells(c, "hy-AM")
        || spells(c, "id-ID")
        || spells(c, "is-IS")
        || spells(c, "it-CH")
        || spells(c, "it-IT")
        || spells(c, "ja-JP")
        || spells(c, "ka-GE")
        || spells(c, "kk-KZ")
        || spells(c, "kn-IN")
        || spells(c, "ko-KR")
        || spells(c, "kok-IN")
        || spells(c, "ky-KG")
        || spells(c, "lt-LT")
        || spells(c, "lv-LV")
        || spells(c, "mi-NZ")
        || spells(c, "mk-MK")
        || spells(c, "mn-MN")
        || spells(c, "mr-IN")
        || spells(c, "ms-BN")
        || spells(c, "ms-MY")
        || spells(c, "mt-MT")
        || spells(c, "nb-NO")
        || spells(c, "nl-BE")
        || spells(c, "nl-NL")
        || spells(c, "nn-NO")
        || spells(c, "ns-ZA")
}

fn is_regional_5(c: &Vec<char>) -> (r: bool)
    ensures
        r == known_regional_5(c@),
{
    spells(c, "pa-IN")
        || spells(c, "pl-PL")
        || spells(c, "ps-AR")
        || spells(c, "pt-BR")
        || spells(c, "pt-PT")
        || spells(c, "qu-BO")
        || spells(c, "qu-EC")
        || spells(c, "qu-PE")
        || spells(c, "ro-RO")
        || spells(c, "ru-RU")
        || spells(c, "sa-IN")
        || spells(c, "se-FI")
        || spells(c, "se-NO")
        || spells(c, "se-SE")
        || spells(c, "sk-SK")
        || spells(c, "sl-SI")
        || spells(c, "sq-AL")
        || spells(c, "sr-BA")
        || spells(c, "sr-SP")
        || spells(c, "sv-FI")
        || spells(c, "sv-SE")
        || spells(c, "sw-KE")
        || spells(c, "syr-SY")
        || spells(c, "ta-IN")
        || spells(c, "te-IN")
        || spells(c, "th-TH")
        || spells(c, "tl-PH")
}

fn is_regional_6(c: &Vec<char>) -> (r: bool)
    ensures
        r == known_regional_6(c@),
{
    spells(c, "tn-ZA")
        || spells(c, "tr-TR")
        || spells(c, "tt-RU")
        || spells(c, "uk-UA")
        || spells(c, "ur-PK")
        || spells(c, "uz-UZ")
        || spells(c, "vi-VN")
        || spells(c, "xh-ZA")
        || spells(c, "zh-CN")
        || spells(c, "zh-HK")
        || spells(c, "zh-MO")
        || spells(c, "zh-SG")
        || spells(c, "zh-TW")
        || spells(c, "zu-ZA")
}

/// Whether `code`, brought into canonical spelling, is a known language
/// code; so upper and lower case, and `_` for `-`, make no difference.
pub fn is_known_lang_code(code: &str) -> (r: bool)
    ensures
        r == is_known(code@),
{
    let normalized = normalize_lang_code(code);
    let c = chars_of(normalized.as_str());
    is_language_1(&c)
        || is_language_2(&c)
        || is_language_3(&c)
        || is_regional_1(&c)
        || is_regional_2(&c)
        || is_regional_3(&c)
        || is_regional_4(&c)
        || is_regional_5(&c)
        || is_regional_6(&c)
}

// ---------------------------------------------------------------------------
// Warnings for unknown codes
// ---------------------------------------------------------------------------

/// The warning to show for a code that is not known.
pub open spec fn unknown_code_warning(code: Seq<char>) -> Seq<char> {
    "[LocalizeKit] Warning: Unknown language code '"@ + code
        + "'. Unable to determine which language this represents."@
}

/// The text of the warning for an unknown code. Showing it is left to the
/// caller; an unknown code is never an error.
pub fn unknown_lang_code_warning(code: &str) -> (r: String)
    ensures
        r@ == unknown_code_warning(code@),
{
    let mut msg = owned("[LocalizeKit] Warning: Unknown language code '");
    msg.append(code);
    msg.append("'. Unable to determine which language this represents.");
    msg
}

/// The notice to show on a console for a code that is not known.
pub open spec fn unknown_code_notice(code: Seq<char>) -> Seq<char> {
    "[LocalizeKit] Unknown language code '"@ + code
        + "'. Unable to determine which language this represents."@
}

/// The text of the console notice for an unknown code.
pub fn unknown_lang_code_notice(code: &str) -> (r: String)
    ensures
        r@ == unknown_code_notice(code@),
{
    let mut msg = owned("[LocalizeKit] Unknown language code '");
    msg.append(code);
    msg.append("'. Unable to determine which language this represents.");
    msg
}

/// Those of the first `n` codes that are not known, in order.
pub open spec fn unknown_among(codes: Seq<Seq<char>>, n: int) -> Seq<Seq<char>>
    decreases n,
{
    if n <= 0 || n > codes.len() {
        Seq::<Seq<char>>::empty()
    } else if is_known(codes[n - 1]) {
        unknown_among(codes, n - 1)
    } else {
        unknown_among(codes, n - 1).push(codes[n - 1])
    }
}

/// The codes that are not known, in order: those for which a warning is
/// due.
pub fn unknown_lang_codes(codes: &[String]) -> (r: Vec<String>)
    ensures
        texts(r@) == unknown_among(texts(codes@), codes@.len() as int),
{
    let mut out: Vec<String> = Vec::new();
    let mut n: usize = 0;
    while n < codes.len()
        invariant
            n <= codes.len(),
            texts(out@) == unknown_among(texts(codes@), n as int),
        decreases codes.len() - n,
    {
        let ghost before = texts(out@);
        assert(texts(codes@)[n as int] == codes@[n as int]@);
        if !is_known_lang_code(codes[n].as_str()) {
            out.push(codes[n].clone());
            assert(texts(out@) =~= before.push(codes@[n as int]@));
        }
        n = n + 1;
    }
    out
}

} // verus!
