//! The languages a text of a script may be in, as stopword guessing
//! tries them.
use vstd::prelude::*;

use crate::text::str_eq;

verus! {

/// The ISO 639-3 codes of the languages tried for a script, by the
/// script's name; none for a script that is not known.
pub open spec fn script_lang_codes(script: Seq<char>) -> Seq<&'static str> {
    if script == "Arabic"@ {
        seq!["ara", "urd", "pes"]
    } else if script == "Armenian"@ {
        seq!["hye"]
    } else if script == "Bengali"@ {
        seq!["ben"]
    } else if script == "Cyrillic"@ {
        seq!["aze", "bel", "bul", "mkd", "rus", "srp", "tuk", "ukr"]
    } else if script == "Devanagari"@ {
        seq!["hin", "mar", "nep"]
    } else if script == "Ethiopic"@ {
        seq!["amh"]
    } else if script == "Georgian"@ {
        seq!["kat"]
    } else if script == "Greek"@ {
        seq!["ell"]
    } else if script == "Gujarati"@ {
        seq!["guj"]
    } else if script == "Gurmukhi"@ {
        seq!["pan"]
    } else if script == "Hangul"@ {
        seq!["kor"]
    } else if script == "Hebrew"@ {
        seq!["heb", "yid"]
    } else if script == "Kannada"@ {
        seq!["kan"]
    } else if script == "Katakana"@ {
        seq!["jpn"]
    } else if script == "Hiragana"@ {
        seq!["jpn"]
    } else if script == "Khmer"@ {
        seq!["khm"]
    } else if script == "Latin"@ {
        seq!["afr", "aka", "aze", "cat", "ces", "cym", "dan", "deu", "eng", "epo", "est", "fin", "fra", "hrv", "hun", "ind", "ita", "jav", "lat", "lav", "lit", "nld", "nob", "pol", "por", "ron", "slk", "slv", "sna", "spa", "swe", "tgl", "tuk", "tur", "uzb", "vie", "zul"]
    } else if script == "Malayalam"@ {
        seq!["mal"]
    } else if script == "Mandarin"@ {
        seq!["cmn"]
    } else if script == "Myanmar"@ {
        seq!["mya"]
    } else if script == "Oriya"@ {
        seq!["ori"]
    } else if script == "Sinhala"@ {
        seq!["sin"]
    } else if script == "Tamil"@ {
        seq!["tam"]
    } else if script == "Telugu"@ {
        seq!["tel"]
    } else if script == "Thai"@ {
        seq!["tha"]
    } else {
        seq![]
    }
}

/// Whether a language (by ISO 639-3 code) is written in a script (by
/// name), as `whatlang` pairs them: a table by language, apart from the
/// lists by script.
pub open spec fn lang_written_in(code: Seq<char>, script: Seq<char>) -> bool {
    ||| (code == "afr"@ && script == "Latin"@)
    ||| (code == "aka"@ && script == "Latin"@)
    ||| (code == "amh"@ && script == "Ethiopic"@)
    ||| (code == "ara"@ && script == "Arabic"@)
    ||| (code == "aze"@ && script == "Cyrillic"@)
    ||| (code == "aze"@ && script == "Latin"@)
    ||| (code == "bel"@ && script == "Cyrillic"@)
    ||| (code == "ben"@ && script == "Bengali"@)
    ||| (code == "bul"@ && script == "Cyrillic"@)
    ||| (code == "cat"@ && script == "Latin"@)
    ||| (code == "ces"@ && script == "Latin"@)
    ||| (code == "cmn"@ && script == "Mandarin"@)
    ||| (code == "cym"@ && script == "Latin"@)
    ||| (code == "dan"@ && script == "Latin"@)
    ||| (code == "deu"@ && script == "Latin"@)
    ||| (code == "ell"@ && script == "Greek"@)
    ||| (code == "eng"@ && script == "Latin"@)
    ||| (code == "epo"@ && script == "Latin"@)
    ||| (code == "est"@ && script == "Latin"@)
    ||| (code == "fin"@ && script == "Latin"@)
    ||| (code == "fra"@ && script == "Latin"@)
    ||| (code == "guj"@ && script == "Gujarati"@)
    ||| (code == "heb"@ && script == "Hebrew"@)
    ||| (code == "hin"@ && script == "Devanagari"@)
    ||| (code == "hrv"@ && script == "Latin"@)
    ||| (code == "hun"@ && script == "Latin"@)
    ||| (code == "hye"@ && script == "Armenian"@)
    ||| (code == "ind"@ && script == "Latin"@)
    ||| (code == "ita"@ && script == "Latin"@)
    ||| (code == "jav"@ && script == "Latin"@)
    ||| (code == "jpn"@ && script == "Hiragana"@)
    ||| (code == "jpn"@ && script == "Katakana"@)
    ||| (code == "kan"@ && script == "Kannada"@)
    ||| (code == "kat"@ && script == "Georgian"@)
    ||| (code == "khm"@ && script == "Khmer"@)
    ||| (code == "kor"@ && script == "Hangul"@)
    ||| (code == "lat"@ && script == "Latin"@)
    ||| (code == "lav"@ && script == "Latin"@)
    ||| (code == "lit"@ && script == "Latin"@)
    ||| (code == "mal"@ && script == "Malayalam"@)
    ||| (code == "mar"@ && script == "Devanagari"@)
    ||| (code == "mkd"@ && script == "Cyrillic"@)
    ||| (code == "mya"@ && script == "Myanmar"@)
    ||| (code == "nep"@ && script == "Devanagari"@)
    ||| (code == "nld"@ && script == "Latin"@)
    ||| (code == "nob"@ && script == "Latin"@)
    ||| (code == "ori"@ && script == "Oriya"@)
    ||| (code == "pan"@ && script == "Gurmukhi"@)
    ||| (code == "pes"@ && script == "Arabic"@)
    ||| (code == "pol"@ && script == "Latin"@)
    ||| (code == "por"@ && script == "Latin"@)
    ||| (code == "ron"@ && script == "Latin"@)
    ||| (code == "rus"@ && script == "Cyrillic"@)
    ||| (code == "sin"@ && script == "Sinhala"@)
    ||| (code == "slk"@ && script == "Latin"@)
    ||| (code == "slv"@ && script == "Latin"@)
    ||| (code == "sna"@ && script == "Latin"@)
    ||| (code == "spa"@ && script == "Latin"@)
    ||| (code == "srp"@ && script == "Cyrillic"@)
    ||| (code == "swe"@ && script == "Latin"@)
    ||| (code == "tam"@ && script == "Tamil"@)
    ||| (code == "tel"@ && script == "Telugu"@)
    ||| (code == "tgl"@ && script == "Latin"@)
    ||| (code == "tha"@ && script == "Thai"@)
    ||| (code == "tuk"@ && script == "Cyrillic"@)
    ||| (code == "tuk"@ && script == "Latin"@)
    ||| (code == "tur"@ && script == "Latin"@)
    ||| (code == "ukr"@ && script == "Cyrillic"@)
    ||| (code == "urd"@ && script == "Arabic"@)
    ||| (code == "uzb"@ && script == "Latin"@)
    ||| (code == "vie"@ && script == "Latin"@)
    ||| (code == "yid"@ && script == "Hebrew"@)
    ||| (code == "zul"@ && script == "Latin"@)
}

/// The first three characters as one number: names whose first three characters
/// differ have different numbers.
spec fn name_number(c: Seq<char>) -> int {
    (c[0] as int * 1114112 + c[1] as int) * 1114112 + c[2] as int
}

/// The languages tried for a script are exactly the languages written in
/// it: each language of the table is tried for each of its scripts, and
/// every language tried for a script is written in it (none for a script
/// that is not known).
pub proof fn lemma_script_languages(code: Seq<char>, script: Seq<char>)
    ensures
        lang_written_in(code, script) ==> exists|j: int|
            0 <= j < script_lang_codes(script).len() && #[trigger] script_lang_codes(script)[j]@
                == code,
        forall|j: int|
            0 <= j < script_lang_codes(script).len() ==> lang_written_in(
                #[trigger] script_lang_codes(script)[j]@,
                script,
            ),
{
    reveal_strlit("Arabic");
    assert(name_number("Arabic"@) == 80681087664225);
    reveal_strlit("Armenian");
    assert(name_number("Armenian"@) == 80681087664237);
    reveal_strlit("Bengali");
    assert(name_number("Bengali"@) == 81922318729326);
    reveal_strlit("Cyrillic");
    assert(name_number("Cyrillic"@) == 83163586560114);
    reveal_strlit("Devanagari");
    assert(name_number("Devanagari"@) == 84404809826422);
    reveal_strlit("Ethiopic");
    assert(name_number("Ethiopic"@) == 85646072086632);
    reveal_strlit("Georgian");
    assert(name_number("Georgian"@) == 88128546472047);
    reveal_strlit("Greek");
    assert(name_number("Greek"@) == 88128560955493);
    reveal_strlit("Gujarati");
    assert(name_number("Gujarati"@) == 88128564297834);
    reveal_strlit("Gurmukhi");
    assert(name_number("Gurmukhi"@) == 88128564297842);
    reveal_strlit("Hangul");
    assert(name_number("Hangul"@) == 89369787564142);
    reveal_strlit("Hebrew");
    assert(name_number("Hebrew"@) == 89369792020578);
    reveal_strlit("Kannada");
    assert(name_number("Kannada"@) == 93093524209774);
    reveal_strlit("Katakana");
    assert(name_number("Katakana"@) == 93093524209780);
    reveal_strlit("Hiragana");
    assert(name_number("Hiragana"@) == 89369796477042);
    reveal_strlit("Khmer");
    assert(name_number("Khmer"@) == 93093532008557);
    reveal_strlit("Latin");
    assert(name_number("Latin"@) == 94334769758324);
    reveal_strlit("Malayalam");
    assert(name_number("Malayalam"@) == 95576015306860);
    reveal_strlit("Mandarin");
    assert(name_number("Mandarin"@) == 95576015306862);
    reveal_strlit("Myanmar");
    assert(name_number("Myanmar"@) == 95576042045537);
    reveal_strlit("Oriya");
    assert(name_number("Oriya"@) == 98058525343849);
    reveal_strlit("Sinhala");
    assert(name_number("Sinhala"@) == 103023497511022);
    reveal_strlit("Tamil");
    assert(name_number("Tamil"@) == 104264734146669);
    reveal_strlit("Telugu");
    assert(name_number("Telugu"@) == 104264738603116);
    reveal_strlit("Thai");
    assert(name_number("Thai"@) == 104264741945441);
    assert(script_lang_codes("Arabic"@)[0]@ == "ara"@);
    assert(script_lang_codes("Arabic"@)[1]@ == "urd"@);
    assert(script_lang_codes("Arabic"@)[2]@ == "pes"@);
    assert(script_lang_codes("Armenian"@)[0]@ == "hye"@);
    assert(script_lang_codes("Bengali"@)[0]@ == "ben"@);
    assert(script_lang_codes("Cyrillic"@)[0]@ == "aze"@);
    assert(script_lang_codes("Cyrillic"@)[1]@ == "bel"@);
    assert(script_lang_codes("Cyrillic"@)[2]@ == "bul"@);
    assert(script_lang_codes("Cyrillic"@)[3]@ == "mkd"@);
    assert(script_lang_codes("Cyrillic"@)[4]@ == "rus"@);
    assert(script_lang_codes("Cyrillic"@)[5]@ == "srp"@);
    assert(script_lang_codes("Cyrillic"@)[6]@ == "tuk"@);
    assert(script_lang_codes("Cyrillic"@)[7]@ == "ukr"@);
    assert(script_lang_codes("Devanagari"@)[0]@ == "hin"@);
    assert(script_lang_codes("Devanagari"@)[1]@ == "mar"@);
    assert(script_lang_codes("Devanagari"@)[2]@ == "nep"@);
    assert(script_lang_codes("Ethiopic"@)[0]@ == "amh"@);
    assert(script_lang_codes("Georgian"@)[0]@ == "kat"@);
    assert(script_lang_codes("Greek"@)[0]@ == "ell"@);
    assert(script_lang_codes("Gujarati"@)[0]@ == "guj"@);
    assert(script_lang_codes("Gurmukhi"@)[0]@ == "pan"@);
    assert(script_lang_codes("Hangul"@)[0]@ == "kor"@);
    assert(script_lang_codes("Hebrew"@)[0]@ == "heb"@);
    assert(script_lang_codes("Hebrew"@)[1]@ == "yid"@);
    assert(script_lang_codes("Kannada"@)[0]@ == "kan"@);
    assert(script_lang_codes("Katakana"@)[0]@ == "jpn"@);
    assert(script_lang_codes("Hiragana"@)[0]@ == "jpn"@);
    assert(script_lang_codes("Khmer"@)[0]@ == "khm"@);
    assert(script_lang_codes("Latin"@)[0]@ == "afr"@);
    assert(script_lang_codes("Latin"@)[1]@ == "aka"@);
    assert(script_lang_codes("Latin"@)[2]@ == "aze"@);
    assert(script_lang_codes("Latin"@)[3]@ == "cat"@);
    assert(script_lang_codes("Latin"@)[4]@ == "ces"@);
    assert(script_lang_codes("Latin"@)[5]@ == "cym"@);
    assert(script_lang_codes("Latin"@)[6]@ == "dan"@);
    assert(script_lang_codes("Latin"@)[7]@ == "deu"@);
    assert(script_lang_codes("Latin"@)[8]@ == "eng"@);
    assert(script_lang_codes("Latin"@)[9]@ == "epo"@);
    assert(script_lang_codes("Latin"@)[10]@ == "est"@);
    assert(script_lang_codes("Latin"@)[11]@ == "fin"@);
    assert(script_lang_codes("Latin"@)[12]@ == "fra"@);
    assert(script_lang_codes("Latin"@)[13]@ == "hrv"@);
    assert(script_lang_codes("Latin"@)[14]@ == "hun"@);
    assert(script_lang_codes("Latin"@)[15]@ == "ind"@);
    assert(script_lang_codes("Latin"@)[16]@ == "ita"@);
    assert(script_lang_codes("Latin"@)[17]@ == "jav"@);
    assert(script_lang_codes("Latin"@)[18]@ == "lat"@);
    assert(script_lang_codes("Latin"@)[19]@ == "lav"@);
    assert(script_lang_codes("Latin"@)[20]@ == "lit"@);
    assert(script_lang_codes("Latin"@)[21]@ == "nld"@);
    assert(script_lang_codes("Latin"@)[22]@ == "nob"@);
    assert(script_lang_codes("Latin"@)[23]@ == "pol"@);
    assert(script_lang_codes("Latin"@)[24]@ == "por"@);
    assert(script_lang_codes("Latin"@)[25]@ == "ron"@);
    assert(script_lang_codes("Latin"@)[26]@ == "slk"@);
    assert(script_lang_codes("Latin"@)[27]@ == "slv"@);
    assert(script_lang_codes("Latin"@)[28]@ == "sna"@);
    assert(script_lang_codes("Latin"@)[29]@ == "spa"@);
    assert(script_lang_codes("Latin"@)[30]@ == "swe"@);
    assert(script_lang_codes("Latin"@)[31]@ == "tgl"@);
    assert(script_lang_codes("Latin"@)[32]@ == "tuk"@);
    assert(script_lang_codes("Latin"@)[33]@ == "tur"@);
    assert(script_lang_codes("Latin"@)[34]@ == "uzb"@);
    assert(script_lang_codes("Latin"@)[35]@ == "vie"@);
    assert(script_lang_codes("Latin"@)[36]@ == "zul"@);
    assert(script_lang_codes("Malayalam"@)[0]@ == "mal"@);
    assert(script_lang_codes("Mandarin"@)[0]@ == "cmn"@);
    assert(script_lang_codes("Myanmar"@)[0]@ == "mya"@);
    assert(script_lang_codes("Oriya"@)[0]@ == "ori"@);
    assert(script_lang_codes("Sinhala"@)[0]@ == "sin"@);
    assert(script_lang_codes("Tamil"@)[0]@ == "tam"@);
    assert(script_lang_codes("Telugu"@)[0]@ == "tel"@);
    assert(script_lang_codes("Thai"@)[0]@ == "tha"@);
    if script == "Arabic"@ {
        assert forall|j: int| 0 <= j < script_lang_codes(script).len() implies lang_written_in(
            #[trigger] script_lang_codes(script)[j]@,
            script,
        ) by {
            if j == 0 {
                assert(script_lang_codes(script)[j]@ == "ara"@);
            } else if j == 1 {
                assert(script_lang_codes(script)[j]@ == "urd"@);
            } else if j == 2 {
                assert(script_lang_codes(script)[j]@ == "pes"@);
            }
        }
    }
    if script == "Armenian"@ {
        assert forall|j: int| 0 <= j < script_lang_codes(script).len() implies lang_written_in(
            #[trigger] script_lang_codes(script)[j]@,
            script,
        ) by {
            if j == 0 {
                assert(script_lang_codes(script)[j]@ == "hye"@);
            }
        }
    }
    if script == "Bengali"@ {
        assert forall|j: int| 0 <= j < script_lang_codes(script).len() implies lang_written_in(
            #[trigger] script_lang_codes(script)[j]@,
            script,
        ) by {
            if j == 0 {
                assert(script_lang_codes(script)[j]@ == "ben"@);
            }
        }
    }
    if script == "Cyrillic"@ {
        assert forall|j: int| 0 <= j < script_lang_codes(script).len() implies lang_written_in(
            #[trigger] script_lang_codes(script)[j]@,
            script,
        ) by {
            if j == 0 {
                assert(script_lang_codes(script)[j]@ == "aze"@);
            } else if j == 1 {
                assert(script_lang_codes(script)[j]@ == "bel"@);
            } else if j == 2 {
                assert(script_lang_codes(script)[j]@ == "bul"@);
            } else if j == 3 {
                assert(script_lang_codes(script)[j]@ == "mkd"@);
            } else if j == 4 {
                assert(script_lang_codes(script)[j]@ == "rus"@);
            } else if j == 5 {
                assert(script_lang_codes(script)[j]@ == "srp"@);
            } else if j == 6 {
                assert(script_lang_codes(script)[j]@ == "tuk"@);
            } else if j == 7 {
                assert(script_lang_codes(script)[j]@ == "ukr"@);
            }
        }
    }
    if script == "Devanagari"@ {
        assert forall|j: int| 0 <= j < script_lang_codes(script).len() implies lang_written_in(
            #[trigger] script_lang_codes(script)[j]@,
            script,
        ) by {
            if j == 0 {
                assert(script_lang_codes(script)[j]@ == "hin"@);
            } else if j == 1 {
                assert(script_lang_codes(script)[j]@ == "mar"@);
            } else if j == 2 {
                assert(script_lang_codes(script)[j]@ == "nep"@);
            }
        }
    }
    if script == "Ethiopic"@ {
        assert forall|j: int| 0 <= j < script_lang_codes(script).len() implies lang_written_in(
            #[trigger] script_lang_codes(script)[j]@,
            script,
        ) by {
            if j == 0 {
                assert(script_lang_codes(script)[j]@ == "amh"@);
            }
        }
    }
    if script == "Georgian"@ {
        assert forall|j: int| 0 <= j < script_lang_codes(script).len() implies lang_written_in(
            #[trigger] script_lang_codes(script)[j]@,
            script,
        ) by {
            if j == 0 {
                assert(script_lang_codes(script)[j]@ == "kat"@);
            }
        }
    }
    if script == "Greek"@ {
        assert forall|j: int| 0 <= j < script_lang_codes(script).len() implies lang_written_in(
            #[trigger] script_lang_codes(script)[j]@,
            script,
        ) by {
            if j == 0 {
                assert(script_lang_codes(script)[j]@ == "ell"@);
            }
        }
    }
    if script == "Gujarati"@ {
        assert forall|j: int| 0 <= j < script_lang_codes(script).len() implies lang_written_in(
            #[trigger] script_lang_codes(script)[j]@,
            script,
        ) by {
            if j == 0 {
                assert(script_lang_codes(script)[j]@ == "guj"@);
            }
        }
    }
    if script == "Gurmukhi"@ {
        assert forall|j: int| 0 <= j < script_lang_codes(script).len() implies lang_written_in(
            #[trigger] script_lang_codes(script)[j]@,
            script,
        ) by {
            if j == 0 {
                assert(script_lang_codes(script)[j]@ == "pan"@);
            }
        }
    }
    if script == "Hangul"@ {
        assert forall|j: int| 0 <= j < script_lang_codes(script).len() implies lang_written_in(
            #[trigger] script_lang_codes(script)[j]@,
            script,
        ) by {
            if j == 0 {
                assert(script_lang_codes(script)[j]@ == "kor"@);
            }
        }
    }
    if script == "Hebrew"@ {
        assert forall|j: int| 0 <= j < script_lang_codes(script).len() implies lang_written_in(
            #[trigger] script_lang_codes(script)[j]@,
            script,
        ) by {
            if j == 0 {
                assert(script_lang_codes(script)[j]@ == "heb"@);
            } else if j == 1 {
                assert(script_lang_codes(script)[j]@ == "yid"@);
            }
        }
    }
    if script == "Kannada"@ {
        assert forall|j: int| 0 <= j < script_lang_codes(script).len() implies lang_written_in(
            #[trigger] script_lang_codes(script)[j]@,
            script,
        ) by {
            if j == 0 {
                assert(script_lang_codes(script)[j]@ == "kan"@);
            }
        }
    }
    if script == "Katakana"@ {
        assert forall|j: int| 0 <= j < script_lang_codes(script).len() implies lang_written_in(
            #[trigger] script_lang_codes(script)[j]@,
            script,
        ) by {
            if j == 0 {
                assert(script_lang_codes(script)[j]@ == "jpn"@);
            }
        }
    }
    if script == "Hiragana"@ {
        assert forall|j: int| 0 <= j < script_lang_codes(script).len() implies lang_written_in(
            #[trigger] script_lang_codes(script)[j]@,
            script,
        ) by {
            if j == 0 {
                assert(script_lang_codes(script)[j]@ == "jpn"@);
            }
        }
    }
    if script == "Khmer"@ {
        assert forall|j: int| 0 <= j < script_lang_codes(script).len() implies lang_written_in(
            #[trigger] script_lang_codes(script)[j]@,
            script,
        ) by {
            if j == 0 {
                assert(script_lang_codes(script)[j]@ == "khm"@);
            }
        }
    }
    if script == "Latin"@ {
        assert forall|j: int| 0 <= j < script_lang_codes(script).len() implies lang_written_in(
            #[trigger] script_lang_codes(script)[j]@,
            script,
        ) by {
            if j == 0 {
                assert(script_lang_codes(script)[j]@ == "afr"@);
            } else if j == 1 {
                assert(script_lang_codes(script)[j]@ == "aka"@);
            } else if j == 2 {
                assert(script_lang_codes(script)[j]@ == "aze"@);
            } else if j == 3 {
                assert(script_lang_codes(script)[j]@ == "cat"@);
            } else if j == 4 {
                assert(script_lang_codes(script)[j]@ == "ces"@);
            } else if j == 5 {
                assert(script_lang_codes(script)[j]@ == "cym"@);
            } else if j == 6 {
                assert(script_lang_codes(script)[j]@ == "dan"@);
            } else if j == 7 {
                assert(script_lang_codes(script)[j]@ == "deu"@);
            } else if j == 8 {
                assert(script_lang_codes(script)[j]@ == "eng"@);
            } else if j == 9 {
                assert(script_lang_codes(script)[j]@ == "epo"@);
            } else if j == 10 {
                assert(script_lang_codes(script)[j]@ == "est"@);
            } else if j == 11 {
                assert(script_lang_codes(script)[j]@ == "fin"@);
            } else if j == 12 {
                assert(script_lang_codes(script)[j]@ == "fra"@);
            } else if j == 13 {
                assert(script_lang_codes(script)[j]@ == "hrv"@);
            } else if j == 14 {
                assert(script_lang_codes(script)[j]@ == "hun"@);
            } else if j == 15 {
                assert(script_lang_codes(script)[j]@ == "ind"@);
            } else if j == 16 {
                assert(script_lang_codes(script)[j]@ == "ita"@);
            } else if j == 17 {
                assert(script_lang_codes(script)[j]@ == "jav"@);
            } else if j == 18 {
                assert(script_lang_codes(script)[j]@ == "lat"@);
            } else if j == 19 {
                assert(script_lang_codes(script)[j]@ == "lav"@);
            } else if j == 20 {
                assert(script_lang_codes(script)[j]@ == "lit"@);
            } else if j == 21 {
                assert(script_lang_codes(script)[j]@ == "nld"@);
            } else if j == 22 {
                assert(script_lang_codes(script)[j]@ == "nob"@);
            } else if j == 23 {
                assert(script_lang_codes(script)[j]@ == "pol"@);
            } else if j == 24 {
                assert(script_lang_codes(script)[j]@ == "por"@);
            } else if j == 25 {
                assert(script_lang_codes(script)[j]@ == "ron"@);
            } else if j == 26 {
                assert(script_lang_codes(script)[j]@ == "slk"@);
            } else if j == 27 {
                assert(script_lang_codes(script)[j]@ == "slv"@);
            } else if j == 28 {
                assert(script_lang_codes(script)[j]@ == "sna"@);
            } else if j == 29 {
                assert(script_lang_codes(script)[j]@ == "spa"@);
            } else if j == 30 {
                assert(script_lang_codes(script)[j]@ == "swe"@);
            } else if j == 31 {
                assert(script_lang_codes(script)[j]@ == "tgl"@);
            } else if j == 32 {
                assert(script_lang_codes(script)[j]@ == "tuk"@);
            } else if j == 33 {
                assert(script_lang_codes(script)[j]@ == "tur"@);
            } else if j == 34 {
                assert(script_lang_codes(script)[j]@ == "uzb"@);
            } else if j == 35 {
                assert(script_lang_codes(script)[j]@ == "vie"@);
            } else if j == 36 {
                assert(script_lang_codes(script)[j]@ == "zul"@);
            }
        }
    }
    if script == "Malayalam"@ {
        assert forall|j: int| 0 <= j < script_lang_codes(script).len() implies lang_written_in(
            #[trigger] script_lang_codes(script)[j]@,
            script,
        ) by {
            if j == 0 {
                assert(script_lang_codes(script)[j]@ == "mal"@);
            }
        }
    }
    if script == "Mandarin"@ {
        assert forall|j: int| 0 <= j < script_lang_codes(script).len() implies lang_written_in(
            #[trigger] script_lang_codes(script)[j]@,
            script,
        ) by {
            if j == 0 {
                assert(script_lang_codes(script)[j]@ == "cmn"@);
            }
        }
    }
    if script == "Myanmar"@ {
        assert forall|j: int| 0 <= j < script_lang_codes(script).len() implies lang_written_in(
            #[trigger] script_lang_codes(script)[j]@,
            script,
        ) by {
            if j == 0 {
                assert(script_lang_codes(script)[j]@ == "mya"@);
            }
        }
    }
    if script == "Oriya"@ {
        assert forall|j: int| 0 <= j < script_lang_codes(script).len() implies lang_written_in(
            #[trigger] script_lang_codes(script)[j]@,
            script,
        ) by {
            if j == 0 {
                assert(script_lang_codes(script)[j]@ == "ori"@);
            }
        }
    }
    if script == "Sinhala"@ {
        assert forall|j: int| 0 <= j < script_lang_codes(script).len() implies lang_written_in(
            #[trigger] script_lang_codes(script)[j]@,
            script,
        ) by {
            if j == 0 {
                assert(script_lang_codes(script)[j]@ == "sin"@);
            }
        }
    }
    if script == "Tamil"@ {
        assert forall|j: int| 0 <= j < script_lang_codes(script).len() implies lang_written_in(
            #[trigger] script_lang_codes(script)[j]@,
            script,
        ) by {
            if j == 0 {
                assert(script_lang_codes(script)[j]@ == "tam"@);
            }
        }
    }
    if script == "Telugu"@ {
        assert forall|j: int| 0 <= j < script_lang_codes(script).len() implies lang_written_in(
            #[trigger] script_lang_codes(script)[j]@,
            script,
        ) by {
            if j == 0 {
                assert(script_lang_codes(script)[j]@ == "tel"@);
            }
        }
    }
    if script == "Thai"@ {
        assert forall|j: int| 0 <= j < script_lang_codes(script).len() implies lang_written_in(
            #[trigger] script_lang_codes(script)[j]@,
            script,
        ) by {
            if j == 0 {
                assert(script_lang_codes(script)[j]@ == "tha"@);
            }
        }
    }
}

/// The languages (by ISO 639-3 code) whose stopwords are tried for a text
/// of the script named `script`.
pub fn script_langs(script: &str) -> (r: Vec<&'static str>)
    ensures
        r@ == script_lang_codes(script@),
{
    if str_eq(script, "Arabic") {
        vec!["ara", "urd", "pes"]
    } else if str_eq(script, "Armenian") {
        vec!["hye"]
    } else if str_eq(script, "Bengali") {
        vec!["ben"]
    } else if str_eq(script, "Cyrillic") {
        vec!["aze", "bel", "bul", "mkd", "rus", "srp", "tuk", "ukr"]
    } else if str_eq(script, "Devanagari") {
        vec!["hin", "mar", "nep"]
    } else if str_eq(script, "Ethiopic") {
        vec!["amh"]
    } else if str_eq(script, "Georgian") {
        vec!["kat"]
    } else if str_eq(script, "Greek") {
        vec!["ell"]
    } else if str_eq(script, "Gujarati") {
        vec!["guj"]
    } else if str_eq(script, "Gurmukhi") {
        vec!["pan"]
    } else if str_eq(script, "Hangul") {
        vec!["kor"]
    } else if str_eq(script, "Hebrew") {
        vec!["heb", "yid"]
    } else if str_eq(script, "Kannada") {
        vec!["kan"]
    } else if str_eq(script, "Katakana") {
        vec!["jpn"]
    } else if str_eq(script, "Hiragana") {
        vec!["jpn"]
    } else if str_eq(script, "Khmer") {
        vec!["khm"]
    } else if str_eq(script, "Latin") {
        vec!["afr", "aka", "aze", "cat", "ces", "cym", "dan", "deu", "eng", "epo", "est", "fin", "fra", "hrv", "hun", "ind", "ita", "jav", "lat", "lav", "lit", "nld", "nob", "pol", "por", "ron", "slk", "slv", "sna", "spa", "swe", "tgl", "tuk", "tur", "uzb", "vie", "zul"]
    } else if str_eq(script, "Malayalam") {
        vec!["mal"]
    } else if str_eq(script, "Mandarin") {
        vec!["cmn"]
    } else if str_eq(script, "Myanmar") {
        vec!["mya"]
    } else if str_eq(script, "Oriya") {
        vec!["ori"]
    } else if str_eq(script, "Sinhala") {
        vec!["sin"]
    } else if str_eq(script, "Tamil") {
        vec!["tam"]
    } else if str_eq(script, "Telugu") {
        vec!["tel"]
    } else if str_eq(script, "Thai") {
        vec!["tha"]
    } else {
        Vec::new()
    }
}

} // verus!
