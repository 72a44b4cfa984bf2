//! Stemming: which Snowball algorithm stems the words of a language.
use vstd::prelude::*;

use crate::text::str_eq;

verus! {

/// The Snowball stemming algorithms languages are stemmed with.
#[derive(Clone, Copy, Debug, PartialEq, Eq, Structural)]
pub enum StemmingAlgorithm {
    Arabic,
    Armenian,
    Catalan,
    Danish,
    Dutch,
    English,
    Esperanto,
    Estonian,
    Finnish,
    French,
    German,
    Greek,
    Hindi,
    Hungarian,
    Indonesian,
    Italian,
    Lithuanian,
    Nepali,
    Norwegian,
    Portuguese,
    Romanian,
    Russian,
    Serbian,
    Spanish,
    Swedish,
    Tamil,
    Turkish,
    Yiddish,
}

/// The algorithm for a language, by its ISO 639-3 code; languages without
/// one are not stemmed.
pub open spec fn algorithm_for_code(code: Seq<char>) -> Option<StemmingAlgorithm> {
    if code == "ara"@ {
        Some(StemmingAlgorithm::Arabic)
    } else if code == "cat"@ {
        Some(StemmingAlgorithm::Catalan)
    } else if code == "dan"@ {
        Some(StemmingAlgorithm::Danish)
    } else if code == "deu"@ {
        Some(StemmingAlgorithm::German)
    } else if code == "ell"@ {
        Some(StemmingAlgorithm::Greek)
    } else if code == "eng"@ {
        Some(StemmingAlgorithm::English)
    } else if code == "epo"@ {
        Some(StemmingAlgorithm::Esperanto)
    } else if code == "est"@ {
        Some(StemmingAlgorithm::Estonian)
    } else if code == "fin"@ {
        Some(StemmingAlgorithm::Finnish)
    } else if code == "fra"@ {
        Some(StemmingAlgorithm::French)
    } else if code == "hin"@ {
        Some(StemmingAlgorithm::Hindi)
    } else if code == "hun"@ {
        Some(StemmingAlgorithm::Hungarian)
    } else if code == "hye"@ {
        Some(StemmingAlgorithm::Armenian)
    } else if code == "ind"@ {
        Some(StemmingAlgorithm::Indonesian)
    } else if code == "ita"@ {
        Some(StemmingAlgorithm::Italian)
    } else if code == "lit"@ {
        Some(StemmingAlgorithm::Lithuanian)
    } else if code == "nep"@ {
        Some(StemmingAlgorithm::Nepali)
    } else if code == "nld"@ {
        Some(StemmingAlgorithm::Dutch)
    } else if code == "nob"@ {
        Some(StemmingAlgorithm::Norwegian)
    } else if code == "por"@ {
        Some(StemmingAlgorithm::Portuguese)
    } else if code == "ron"@ {
        Some(StemmingAlgorithm::Romanian)
    } else if code == "rus"@ {
        Some(StemmingAlgorithm::Russian)
    } else if code == "spa"@ {
        Some(StemmingAlgorithm::Spanish)
    } else if code == "srp"@ {
        Some(StemmingAlgorithm::Serbian)
    } else if code == "swe"@ {
        Some(StemmingAlgorithm::Swedish)
    } else if code == "tam"@ {
        Some(StemmingAlgorithm::Tamil)
    } else if code == "tur"@ {
        Some(StemmingAlgorithm::Turkish)
    } else if code == "yid"@ {
        Some(StemmingAlgorithm::Yiddish)
    } else {
        None
    }
}

/// The stemming algorithm of the language whose ISO 639-3 code is
/// `locale_code`, if it has one.
pub fn snowball_algorithm(locale_code: &str) -> (r: Option<StemmingAlgorithm>)
    ensures
        r == algorithm_for_code(locale_code@),
{
    if str_eq(locale_code, "ara") {
        Some(StemmingAlgorithm::Arabic)
    } else if str_eq(locale_code, "cat") {
        Some(StemmingAlgorithm::Catalan)
    } else if str_eq(locale_code, "dan") {
        Some(StemmingAlgorithm::Danish)
    } else if str_eq(locale_code, "deu") {
        Some(StemmingAlgorithm::German)
    } else if str_eq(locale_code, "ell") {
        Some(StemmingAlgorithm::Greek)
    } else if str_eq(locale_code, "eng") {
        Some(StemmingAlgorithm::English)
    } else if str_eq(locale_code, "epo") {
        Some(StemmingAlgorithm::Esperanto)
    } else if str_eq(locale_code, "est") {
        Some(StemmingAlgorithm::Estonian)
    } else if str_eq(locale_code, "fin") {
        Some(StemmingAlgorithm::Finnish)
    } else if str_eq(locale_code, "fra") {
        Some(StemmingAlgorithm::French)
    } else if str_eq(locale_code, "hin") {
        Some(StemmingAlgorithm::Hindi)
    } else if str_eq(locale_code, "hun") {
        Some(StemmingAlgorithm::Hungarian)
    } else if str_eq(locale_code, "hye") {
        Some(StemmingAlgorithm::Armenian)
    } else if str_eq(locale_code, "ind") {
        Some(StemmingAlgorithm::Indonesian)
    } else if str_eq(locale_code, "ita") {
        Some(StemmingAlgorithm::Italian)
    } else if str_eq(locale_code, "lit") {
        Some(StemmingAlgorithm::Lithuanian)
    } else if str_eq(locale_code, "nep") {
        Some(StemmingAlgorithm::Nepali)
    } else if str_eq(locale_code, "nld") {
        Some(StemmingAlgorithm::Dutch)
    } else if str_eq(locale_code, "nob") {
        Some(StemmingAlgorithm::Norwegian)
    } else if str_eq(locale_code, "por") {
        Some(StemmingAlgorithm::Portuguese)
    } else if str_eq(locale_code, "ron") {
        Some(StemmingAlgorithm::Romanian)
    } else if str_eq(locale_code, "rus") {
        Some(StemmingAlgorithm::Russian)
    } else if str_eq(locale_code, "spa") {
        Some(StemmingAlgorithm::Spanish)
    } else if str_eq(locale_code, "srp") {
        Some(StemmingAlgorithm::Serbian)
    } else if str_eq(locale_code, "swe") {
        Some(StemmingAlgorithm::Swedish)
    } else if str_eq(locale_code, "tam") {
        Some(StemmingAlgorithm::Tamil)
    } else if str_eq(locale_code, "tur") {
        Some(StemmingAlgorithm::Turkish)
    } else if str_eq(locale_code, "yid") {
        Some(StemmingAlgorithm::Yiddish)
    } else {
        None
    }
}

/// Three characters as one number: different codes of three characters
/// have different numbers.
spec fn code_number(c: Seq<char>) -> int {
    (c[0] as int * 1114112 + c[1] as int) * 1114112 + c[2] as int
}

/// The ISO 639-3 code of the language each Snowball algorithm stems.
pub open spec fn algorithm_language(a: StemmingAlgorithm) -> Seq<char> {
    match a {
        StemmingAlgorithm::Arabic => "ara"@,
        StemmingAlgorithm::Armenian => "hye"@,
        StemmingAlgorithm::Catalan => "cat"@,
        StemmingAlgorithm::Danish => "dan"@,
        StemmingAlgorithm::Dutch => "nld"@,
        StemmingAlgorithm::English => "eng"@,
        StemmingAlgorithm::Esperanto => "epo"@,
        StemmingAlgorithm::Estonian => "est"@,
        StemmingAlgorithm::Finnish => "fin"@,
        StemmingAlgorithm::French => "fra"@,
        StemmingAlgorithm::German => "deu"@,
        StemmingAlgorithm::Greek => "ell"@,
        StemmingAlgorithm::Hindi => "hin"@,
        StemmingAlgorithm::Hungarian => "hun"@,
        StemmingAlgorithm::Indonesian => "ind"@,
        StemmingAlgorithm::Italian => "ita"@,
        StemmingAlgorithm::Lithuanian => "lit"@,
        StemmingAlgorithm::Nepali => "nep"@,
        StemmingAlgorithm::Norwegian => "nob"@,
        StemmingAlgorithm::Portuguese => "por"@,
        StemmingAlgorithm::Romanian => "ron"@,
        StemmingAlgorithm::Russian => "rus"@,
        StemmingAlgorithm::Serbian => "srp"@,
        StemmingAlgorithm::Spanish => "spa"@,
        StemmingAlgorithm::Swedish => "swe"@,
        StemmingAlgorithm::Tamil => "tam"@,
        StemmingAlgorithm::Turkish => "tur"@,
        StemmingAlgorithm::Yiddish => "yid"@,
    }
}

/// Each language is stemmed by the algorithm of that same language, and
/// every algorithm is the one of its language: whatever code is looked up,
/// the algorithm found stems the language of that code, and the code of
/// each algorithm's language finds that algorithm.
pub proof fn lemma_algorithm_of_own_language(code: Seq<char>, a: StemmingAlgorithm)
    ensures
        algorithm_for_code(code) matches Some(found) ==> algorithm_language(found) == code,
        algorithm_for_code(algorithm_language(a)) == Some(a),
{
    reveal_strlit("ara");
    assert(code_number("ara"@) == 120400945217633);
    reveal_strlit("cat");
    assert(code_number("cat"@) == 122883417374836);
    reveal_strlit("dan");
    assert(code_number("dan"@) == 124124662923374);
    reveal_strlit("deu");
    assert(code_number("deu"@) == 124124667379829);
    reveal_strlit("ell");
    assert(code_number("ell"@) == 125365920727148);
    reveal_strlit("eng");
    assert(code_number("eng"@) == 125365922955367);
    reveal_strlit("epo");
    assert(code_number("epo"@) == 125365925183599);
    reveal_strlit("est");
    assert(code_number("est"@) == 125365928525940);
    reveal_strlit("fin");
    assert(code_number("fin"@) == 126607162933358);
    reveal_strlit("fra");
    assert(code_number("fra"@) == 126607172960353);
    reveal_strlit("hin");
    assert(code_number("hin"@) == 129089654030446);
    reveal_strlit("hun");
    assert(code_number("hun"@) == 129089667399790);
    reveal_strlit("hye");
    assert(code_number("hye"@) == 129089671856229);
    reveal_strlit("ind");
    assert(code_number("ind"@) == 130330905149540);
    reveal_strlit("ita");
    assert(code_number("ita"@) == 130330911834209);
    reveal_strlit("lit");
    assert(code_number("lit"@) == 134054636224628);
    reveal_strlit("nep");
    assert(code_number("nep"@) == 136537122865264);
    reveal_strlit("nld");
    assert(code_number("nld"@) == 136537130664036);
    reveal_strlit("nob");
    assert(code_number("nob"@) == 136537134006370);
    reveal_strlit("por");
    assert(code_number("por"@) == 139019625103474);
    reveal_strlit("ron");
    assert(code_number("ron"@) == 141502116200558);
    reveal_strlit("rus");
    assert(code_number("rus"@) == 141502122885235);
    reveal_strlit("spa");
    assert(code_number("spa"@) == 142743362863201);
    reveal_strlit("srp");
    assert(code_number("srp"@) == 142743365091440);
    reveal_strlit("swe");
    assert(code_number("swe"@) == 142743370661989);
    reveal_strlit("tam");
    assert(code_number("tam"@) == 143984591700077);
    reveal_strlit("tur");
    assert(code_number("tur"@) == 143984613982322);
    reveal_strlit("yid");
    assert(code_number("yid"@) == 150190828355684);
}

} // verus!
