use sonic::lang_detection::{detect_lang, guess_lang, is_stopword, StopwordSet};

/// A few stopwords of a few languages (the lists this crate does not
/// ship are far longer).
fn table() -> Vec<(&'static str, StopwordSet)> {
    vec![
        ("cat", StopwordSet::from_words(&["a", "de", "els", "en", "i"])),
        ("eng", StopwordSet::from_words(&["a", "an", "i", "is", "the", "there", "to"])),
        ("fra", StopwordSet::from_words(&["aux", "de", "des", "ici", "le", "sous"])),
        ("hun", StopwordSet::from_words(&["a", "alapján", "az"])),
    ]
}

#[test]
fn it_detects_stopwords() {
    let t = vec![
        ("cat", StopwordSet::from_words(&["adéu"])),
        ("eng", StopwordSet::from_words(&["the"])),
        ("fra", StopwordSet::from_words(&["ici"])),
        // A language with no stopwords is never guessed.
        ("deu", StopwordSet::from_words(&[])),
    ];
    assert!(!is_stopword("the", None, &t));
    assert!(is_stopword("the", Some("eng"), &t));
    assert!(!is_stopword("fox", Some("eng"), &t));
    assert!(!is_stopword("bonjour", Some("fra"), &t));
    assert!(is_stopword("ici", Some("fra"), &t));
    assert!(is_stopword("adéu", Some("cat"), &t));
}

#[test]
fn it_guesses_language() {
    let t = table();
    assert_eq!(
        guess_lang(
            "I believe there is an extremely simple way to whip climate change.",
            "Latin",
            &t
        ),
        Some("eng")
    );
    assert_eq!(
        guess_lang(
            "permettre aux pharmaciens de délivrer sous certaines conditions des médicaments",
            "Latin",
            &t
        ),
        Some("fra")
    );
    assert_eq!(
        guess_lang(
            "Tarlós István főpolgármester utasítása alapján a Főváros a Budapest Portálon",
            "Latin",
            &t
        ),
        Some("hun")
    );
    assert_eq!(
        guess_lang(
            "Tots els éssers humans neixen lliures i iguals en dignitat i en drets.",
            "Latin",
            &t
        ),
        Some("cat")
    );
    assert_eq!(guess_lang("aux", "Latin", &t), Some("fra"));
    assert_eq!(guess_lang("feefeffd zd", "Latin", &t), None);
}

#[test]
fn it_guesses_the_first_language_on_a_tie() {
    // "a" is a stopword of Catalan, English and Hungarian alike: Catalan
    // comes first among the languages of the Latin script.
    assert_eq!(guess_lang("a b c", "Latin", &table()), Some("cat"));
    // No language of another script.
    assert_eq!(guess_lang("the is to", "Cyrillic", &table()), None);
}

#[test]
fn it_detects_no_language_in_short_texts() {
    assert_eq!(detect_lang("the is to", &table()), None);
    assert_eq!(detect_lang("", &table()), None);
}

#[test]
fn it_detects_the_language_of_longer_texts() {
    let t = table();
    // Over 60 bytes: stopwords first.
    let long = "I believe there is an extremely simple way to whip climate change, to be honest.";
    assert_eq!(detect_lang(long, &t), Some("eng"));
    // Over 200 bytes, the text is cut (on a character boundary) first.
    let longer = long.repeat(4) + "é";
    assert_eq!(detect_lang(&longer, &t), Some("eng"));
}
