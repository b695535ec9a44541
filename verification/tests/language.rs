use ukmm::error::UKError;
use ukmm::language::{Language, LocLang};

#[test]
fn codes_round_trip() {
    for lang in Language::iter() {
        assert_eq!(Language::from_code(lang.to_str()).unwrap(), lang);
        let parsed: Language = lang.to_str().parse().unwrap();
        assert_eq!(parsed, lang);
    }
}

#[test]
fn iter_lists_all_fourteen_once() {
    let all = Language::iter();
    assert_eq!(all.len(), 14);
    assert_eq!(all[0], Language::USen);
    assert_eq!(all[13], Language::TWzh);
    for (i, a) in all.iter().enumerate() {
        for b in all.iter().skip(i + 1) {
            assert_ne!(a, b);
        }
    }
}

#[test]
fn short_codes() {
    assert_eq!(Language::USen.short(), "en");
    assert_eq!(Language::EUde.short(), "de");
    assert_eq!(Language::TWzh.short(), "zh");
    assert_eq!(Language::JPja.to_str(), "JPja");
}

#[test]
fn invalid_code_error() {
    match Language::from_code("XXxx") {
        Err(UKError::OtherD(msg)) => assert_eq!(msg, "Invalid language: XXxx"),
        other => panic!("unexpected {:?}", other),
    }
    assert!(Language::from_code("USe").is_err());
    assert!(Language::from_code("usen").is_err());
}

#[test]
fn nearest_prefers_exact_then_language_then_english() {
    let langs = [Language::EUde, Language::EUen, Language::USen, Language::USfr];
    assert_eq!(*Language::USen.nearest(&langs), Language::USen);
    assert_eq!(*Language::EUfr.nearest(&langs), Language::USfr);
    assert_eq!(*Language::JPja.nearest(&langs), Language::EUen);
    assert_eq!(*Language::JPja.nearest(&[Language::KRko, Language::CNzh]), Language::KRko);
    assert_eq!(*Language::JPja.nearest(&[]), Language::USen);
}

#[test]
fn default_is_usen() {
    assert_eq!(Language::default(), Language::USen);
}

#[test]
fn resource_paths() {
    assert_eq!(Language::USfr.bootup_path(), "Pack/Bootup_USfr.pack");
    assert_eq!(Language::KRko.message_path(), "Message/Msg_KRko.product.ssarc");
}

#[test]
fn language_from_stems() {
    assert_eq!(Language::from_path("Pack/Bootup_EUit.pack"), Some(Language::EUit));
    assert_eq!(Language::from_path("Pack/Bootup_XXxx.pack"), None);
    assert_eq!(Language::from_path("en"), None);
    assert_eq!(Language::from_path(""), None);
    assert_eq!(
        Language::from_message_path("Message/Msg_CNzh.product.ssarc"),
        Some(Language::CNzh)
    );
    assert_eq!(Language::from_message_path("abc"), None);
    assert_eq!(Language::from_message_path("Message/Msg_XXzh.product.ssarc"), None);
    // a stem whose last four bytes split a character gives no language
    assert_eq!(Language::from_path("Pack/Bootup_\u{e9}abc.pack"), None);
}

#[test]
fn archive_paths_name_their_language() {
    for l in Language::iter() {
        assert_eq!(Language::from_path(l.bootup_path().as_str()), Some(l));
        assert_eq!(Language::from_message_path(l.message_path().as_str()), Some(l));
    }
}

#[test]
fn bootup_path_stem_names_its_language() {
    for lang in Language::iter() {
        let path = lang.bootup_path();
        let stem = path.strip_prefix("Pack/").unwrap().strip_suffix(".pack").unwrap();
        assert_eq!(Language::from_stem(stem), Some(lang));
        let msg = lang.message_path();
        let stem = msg.strip_prefix("Message/").unwrap().strip_suffix(".ssarc").unwrap();
        assert_eq!(Language::from_message_stem(stem), Some(lang));
    }
}

#[test]
fn interface_languages() {
    assert_eq!(LocLang::from(Language::TWzh), LocLang::SimpleChinese);
    assert_eq!(LocLang::from(Language::USes), LocLang::Spanish);
    assert_eq!(Language::EUnl.loc_lang(), LocLang::Dutch);
    assert_eq!(Language::EUen.loc_lang(), LocLang::English);
}

#[test]
fn stems_without_an_extension() {
    assert_eq!(Language::from_path("Bootup_USen"), Some(Language::USen));
    assert_eq!(Language::from_path("dir/Bootup_JPja"), Some(Language::JPja));
    assert_eq!(Language::from_path(".KRko"), Some(Language::KRko));
    // the last four bytes of "\u{e9}abc" start inside its first character
    assert_eq!(Language::from_path("dir/\u{e9}abc"), None);
    assert_eq!(Language::from_message_path("EUnl_sixteen"), Some(Language::EUnl));
    // a stem of four to eleven bytes is too short for a message archive
    assert_eq!(Language::from_message_path("Pack/Bootup_EUde.pack"), None);
    assert_eq!(Language::from_message_path("EUde"), None);
}
