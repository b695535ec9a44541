use vstd::prelude::*;
use vstd::string::{StrSliceExecFns, StringSliceAdditionalSpecFns};

use crate::error::UKError;
use crate::map_files::spec_last_index_of;
use crate::text::{str_chars, str_eq};

verus! {

broadcast use vstd::string::group_string_axioms;



/// A language (region and language code) of the game's text.
#[derive(Debug, Clone, Copy, PartialEq, Eq, Hash, Structural)]
pub enum Language {
    USen,
    EUen,
    USfr,
    USes,
    EUde,
    EUes,
    EUfr,
    EUit,
    EUnl,
    EUru,
    CNzh,
    JPja,
    KRko,
    TWzh,
}

/// A language of the program's own interface.
#[derive(Debug, Clone, Copy, PartialEq, Eq, Hash, Structural)]
pub enum LocLang {
    English,
    SimpleChinese,
    German,
    Spanish,
    French,
    Italian,
    Dutch,
    Russian,
    Japanese,
    Korean,
}

/// The four-character code of a language, such as `USen`.
pub open spec fn spec_code(l: Language) -> Seq<char> {
    match l {
        Language::USen => seq!['U', 'S', 'e', 'n'],
        Language::EUen => seq!['E', 'U', 'e', 'n'],
        Language::USfr => seq!['U', 'S', 'f', 'r'],
        Language::USes => seq!['U', 'S', 'e', 's'],
        Language::EUde => seq!['E', 'U', 'd', 'e'],
        Language::EUes => seq!['E', 'U', 'e', 's'],
        Language::EUfr => seq!['E', 'U', 'f', 'r'],
        Language::EUit => seq!['E', 'U', 'i', 't'],
        Language::EUnl => seq!['E', 'U', 'n', 'l'],
        Language::EUru => seq!['E', 'U', 'r', 'u'],
        Language::CNzh => seq!['C', 'N', 'z', 'h'],
        Language::JPja => seq!['J', 'P', 'j', 'a'],
        Language::KRko => seq!['K', 'R', 'k', 'o'],
        Language::TWzh => seq!['T', 'W', 'z', 'h'],
    }
}

/// The two-letter language part of a code, such as `en`.
pub open spec fn spec_short(l: Language) -> Seq<char> {
    spec_code(l).subrange(2, 4)
}

/// The language whose code is `s`, if any.
pub open spec fn spec_language_of(s: Seq<char>) -> Option<Language> {
    if s.len() != 4 {
        None
    } else {
        let (a, b, c, d) = (s[0], s[1], s[2], s[3]);
        if (a, b, c, d) == ('U', 'S', 'e', 'n') {
            Some(Language::USen)
        } else if (a, b, c, d) == ('E', 'U', 'e', 'n') {
            Some(Language::EUen)
        } else if (a, b, c, d) == ('U', 'S', 'f', 'r') {
            Some(Language::USfr)
        } else if (a, b, c, d) == ('U', 'S', 'e', 's') {
            Some(Language::USes)
        } else if (a, b, c, d) == ('E', 'U', 'd', 'e') {
            Some(Language::EUde)
        } else if (a, b, c, d) == ('E', 'U', 'e', 's') {
            Some(Language::EUes)
        } else if (a, b, c, d) == ('E', 'U', 'f', 'r') {
            Some(Language::EUfr)
        } else if (a, b, c, d) == ('E', 'U', 'i', 't') {
            Some(Language::EUit)
        } else if (a, b, c, d) == ('E', 'U', 'n', 'l') {
            Some(Language::EUnl)
        } else if (a, b, c, d) == ('E', 'U', 'r', 'u') {
            Some(Language::EUru)
        } else if (a, b, c, d) == ('C', 'N', 'z', 'h') {
            Some(Language::CNzh)
        } else if (a, b, c, d) == ('J', 'P', 'j', 'a') {
            Some(Language::JPja)
        } else if (a, b, c, d) == ('K', 'R', 'k', 'o') {
            Some(Language::KRko)
        } else if (a, b, c, d) == ('T', 'W', 'z', 'h') {
            Some(Language::TWzh)
        } else {
            None
        }
    }
}

/// Every language, in the order the game lists them.
pub open spec fn spec_all_languages() -> Seq<Language> {
    seq![
        Language::USen,
        Language::EUen,
        Language::USfr,
        Language::USes,
        Language::EUde,
        Language::EUes,
        Language::EUfr,
        Language::EUit,
        Language::EUnl,
        Language::EUru,
        Language::CNzh,
        Language::JPja,
        Language::KRko,
        Language::TWzh,
    ]
}

/// The first language of `langs` whose short code is `short`.
pub open spec fn spec_first_with_short(langs: Seq<Language>, short: Seq<char>) -> Option<Language>
    decreases langs.len(),
{
    if langs.len() == 0 {
        None
    } else if spec_short(langs[0]) == short {
        Some(langs[0])
    } else {
        spec_first_with_short(langs.drop_first(), short)
    }
}

/// The language of `langs` nearest to `lang`: `lang` itself if listed,
/// else the first with the same language part, else the first English
/// one, else the first one, else `USen`.
pub open spec fn spec_nearest(lang: Language, langs: Seq<Language>) -> Language {
    if langs.contains(lang) {
        lang
    } else if spec_first_with_short(langs, spec_short(lang)) is Some {
        spec_first_with_short(langs, spec_short(lang))->Some_0
    } else if spec_first_with_short(langs, seq!['e', 'n']) is Some {
        spec_first_with_short(langs, seq!['e', 'n'])->Some_0
    } else if langs.len() > 0 {
        langs[0]
    } else {
        Language::USen
    }
}

/// The interface language that fits a game language.
pub open spec fn spec_loc_lang(l: Language) -> LocLang {
    match l {
        Language::CNzh | Language::TWzh => LocLang::SimpleChinese,
        Language::EUde => LocLang::German,
        Language::EUen | Language::USen => LocLang::English,
        Language::EUes | Language::USes => LocLang::Spanish,
        Language::EUfr | Language::USfr => LocLang::French,
        Language::EUit => LocLang::Italian,
        Language::EUnl => LocLang::Dutch,
        Language::EUru => LocLang::Russian,
        Language::JPja => LocLang::Japanese,
        Language::KRko => LocLang::Korean,
    }
}

/// The language named by the last four bytes of a file stem, when the
/// stem has at least four bytes.
pub open spec fn spec_from_stem(stem: Seq<u8>) -> Option<Language> {
    if stem.len() < 4 {
        None
    } else {
        spec_language_of(vstd::utf8::decode_utf8(stem.subrange(stem.len() - 4, stem.len() as int)))
    }
}

/// Whether reading the last four bytes of a stem stays on character
/// boundaries (the byte-wise slice of the stem would panic otherwise).
pub open spec fn stem_slice_ok(stem: Seq<u8>) -> bool {
    stem.len() >= 4 ==> vstd::utf8::is_char_boundary(stem, stem.len() - 4)
}

/// The language named by the four bytes that end eight bytes before the
/// end of a message-archive stem (`Msg_USen.product` gives `USen`), when
/// the stem has at least four bytes.
pub open spec fn spec_from_message_stem(stem: Seq<u8>) -> Option<Language> {
    if stem.len() < 4 {
        None
    } else {
        spec_language_of(
            vstd::utf8::decode_utf8(stem.subrange(stem.len() - 12, stem.len() - 8)),
        )
    }
}

/// Whether reading the code of a message-archive stem stays inside the
/// stem and on character boundaries (the byte-wise slice would panic
/// otherwise).
pub open spec fn message_stem_slice_ok(stem: Seq<u8>) -> bool {
    stem.len() >= 4 ==> stem.len() >= 12 && vstd::utf8::is_char_boundary(stem, stem.len() - 12)
        && vstd::utf8::is_char_boundary(stem, stem.len() - 8)
}

/// The first match of a scan from the front is the first match by index.
pub proof fn lemma_first_with_short(langs: Seq<Language>, short: Seq<char>, i: int)
    requires
        0 <= i <= langs.len(),
        forall|j: int| 0 <= j < i ==> spec_short(#[trigger] langs[j]) != short,
    ensures
        i < langs.len() && spec_short(langs[i]) == short ==> spec_first_with_short(langs, short)
            == Some(langs[i]),
        i == langs.len() ==> spec_first_with_short(langs, short) is None,
    decreases i,
{
    if i > 0 {
        let rest = langs.drop_first();
        assert forall|j: int| 0 <= j < i - 1 implies spec_short(#[trigger] rest[j]) != short by {
            assert(rest[j] == langs[j + 1]);
        }
        lemma_first_with_short(rest, short, i - 1);
        assert(spec_short(langs[0]) != short);
        if i < langs.len() {
            assert(rest[i - 1] == langs[i]);
        }
    } else if langs.len() > 0 {
    }
}

impl Default for Language {
    /// `USen`.
    fn default() -> (res: Self)
        ensures
            res == Language::USen,
    {
        Language::USen
    }
}

impl Language {
    /// Every language, in the order the game lists them.
    pub fn iter() -> (res: Vec<Language>)
        ensures
            res@ == spec_all_languages(),
    {
        let res = vec![
            Language::USen,
            Language::EUen,
            Language::USfr,
            Language::USes,
            Language::EUde,
            Language::EUes,
            Language::EUfr,
            Language::EUit,
            Language::EUnl,
            Language::EUru,
            Language::CNzh,
            Language::JPja,
            Language::KRko,
            Language::TWzh,
        ];
        assert(res@ =~= spec_all_languages());
        res
    }

    /// The four-character code of the language, such as `USen`.
    pub fn to_str(self) -> (res: &'static str)
        ensures
            res@ == spec_code(self),
    {
        match self {
            Language::USen => {
                proof {
                    reveal_strlit("USen");
                }
                "USen"
            },
            Language::EUen => {
                proof {
                    reveal_strlit("EUen");
                }
                "EUen"
            },
            Language::USfr => {
                proof {
                    reveal_strlit("USfr");
                }
                "USfr"
            },
            Language::USes => {
                proof {
                    reveal_strlit("USes");
                }
                "USes"
            },
            Language::EUde => {
                proof {
                    reveal_strlit("EUde");
                }
                "EUde"
            },
            Language::EUes => {
                proof {
                    reveal_strlit("EUes");
                }
                "EUes"
            },
            Language::EUfr => {
                proof {
                    reveal_strlit("EUfr");
                }
                "EUfr"
            },
            Language::EUit => {
                proof {
                    reveal_strlit("EUit");
                }
                "EUit"
            },
            Language::EUnl => {
                proof {
                    reveal_strlit("EUnl");
                }
                "EUnl"
            },
            Language::EUru => {
                proof {
                    reveal_strlit("EUru");
                }
                "EUru"
            },
            Language::CNzh => {
                proof {
                    reveal_strlit("CNzh");
                }
                "CNzh"
            },
            Language::JPja => {
                proof {
                    reveal_strlit("JPja");
                }
                "JPja"
            },
            Language::KRko => {
                proof {
                    reveal_strlit("KRko");
                }
                "KRko"
            },
            Language::TWzh => {
                proof {
                    reveal_strlit("TWzh");
                }
                "TWzh"
            },
        }
    }

    /// The two-letter language part of the code, such as `en`.
    pub fn short(&self) -> (res: &'static str)
        ensures
            res@ == spec_short(*self),
    {
        let code = self.to_str();
        code.substring_ascii(2, 4)
    }

    /// The language of `langs` nearest to this one: itself if listed, else
    /// the first with the same language part, else the first English one,
    /// else the first one, else `USen`.
    pub fn nearest<'l>(&self, langs: &'l [Self]) -> (res: &'l Self)
        ensures
            *res == spec_nearest(*self, langs@),
    {
        let mut i: usize = 0;
        while i < langs.len()
            invariant
                i <= langs.len(),
                forall|j: int| 0 <= j < i ==> langs@[j] != *self,
            decreases langs.len() - i,
        {
            if langs[i] == *self {
                proof {
                    assert(langs@.contains(*self));
                }
                return &langs[i];
            }
            i = i + 1;
        }
        assert(!langs@.contains(*self));
        let own = self.short();
        let mut i: usize = 0;
        while i < langs.len()
            invariant
                i <= langs.len(),
                own@ == spec_short(*self),
                !langs@.contains(*self),
                forall|j: int| 0 <= j < i ==> spec_short(#[trigger] langs@[j]) != own@,
            decreases langs.len() - i,
        {
            if str_eq(langs[i].short(), own) {
                proof {
                    lemma_first_with_short(langs@, own@, i as int);
                }
                return &langs[i];
            }
            i = i + 1;
        }
        proof {
            lemma_first_with_short(langs@, own@, langs@.len() as int);
        }
        let en = "en";
        proof {
            reveal_strlit("en");
        }
        let mut i: usize = 0;
        while i < langs.len()
            invariant
                i <= langs.len(),
                en@ == seq!['e', 'n'],
                !langs@.contains(*self),
                spec_first_with_short(langs@, spec_short(*self)) is None,
                forall|j: int| 0 <= j < i ==> spec_short(#[trigger] langs@[j]) != en@,
            decreases langs.len() - i,
        {
            if str_eq(langs[i].short(), en) {
                proof {
                    lemma_first_with_short(langs@, en@, i as int);
                }
                return &langs[i];
            }
            i = i + 1;
        }
        proof {
            lemma_first_with_short(langs@, en@, langs@.len() as int);
        }
        if langs.len() > 0 {
            &langs[0]
        } else {
            &Language::USen
        }
    }

    /// The language whose code is `s`; an error naming `s` otherwise.
    pub fn from_code(s: &str) -> (res: Result<Language, UKError>)
        ensures
            match res {
                Ok(l) => spec_language_of(s@) == Some(l),
                Err(e) => spec_language_of(s@) is None && (e matches UKError::OtherD(msg) && msg@
                    == "Invalid language: "@ + s@),
            },
    {
        let cs = str_chars(s);
        if cs.len() == 4 {
            let found = match (cs[0], cs[1], cs[2], cs[3]) {
                ('U', 'S', 'e', 'n') => Some(Language::USen),
                ('E', 'U', 'e', 'n') => Some(Language::EUen),
                ('U', 'S', 'f', 'r') => Some(Language::USfr),
                ('U', 'S', 'e', 's') => Some(Language::USes),
                ('E', 'U', 'd', 'e') => Some(Language::EUde),
                ('E', 'U', 'e', 's') => Some(Language::EUes),
                ('E', 'U', 'f', 'r') => Some(Language::EUfr),
                ('E', 'U', 'i', 't') => Some(Language::EUit),
                ('E', 'U', 'n', 'l') => Some(Language::EUnl),
                ('E', 'U', 'r', 'u') => Some(Language::EUru),
                ('C', 'N', 'z', 'h') => Some(Language::CNzh),
                ('J', 'P', 'j', 'a') => Some(Language::JPja),
                ('K', 'R', 'k', 'o') => Some(Language::KRko),
                ('T', 'W', 'z', 'h') => Some(Language::TWzh),
                _ => None,
            };
            if let Some(l) = found {
                return Ok(l);
            }
        }
        let mut msg = String::from_str("Invalid language: ");
        msg.append(s);
        Err(UKError::OtherD(msg))
    }

    /// The interface language that fits this game language.
    pub fn loc_lang(self) -> (res: LocLang)
        ensures
            res == spec_loc_lang(self),
    {
        match self {
            Language::CNzh | Language::TWzh => LocLang::SimpleChinese,
            Language::EUde => LocLang::German,
            Language::EUen | Language::USen => LocLang::English,
            Language::EUes | Language::USes => LocLang::Spanish,
            Language::EUfr | Language::USfr => LocLang::French,
            Language::EUit => LocLang::Italian,
            Language::EUnl => LocLang::Dutch,
            Language::EUru => LocLang::Russian,
            Language::JPja => LocLang::Japanese,
            Language::KRko => LocLang::Korean,
        }
    }

    /// The path of the language's boot-up archive: `Pack/Bootup_<code>.pack`.
    pub fn bootup_path(&self) -> (res: String)
        ensures
            res@ == "Pack/Bootup_"@ + spec_code(*self) + ".pack"@,
    {
        let mut string = String::from_str("Pack/Bootup_");
        string.append(self.to_str());
        string.append(".pack");
        string
    }

    /// The path of the language's message archive:
    /// `Message/Msg_<code>.product.ssarc`.
    pub fn message_path(&self) -> (res: String)
        ensures
            res@ == "Message/Msg_"@ + spec_code(*self) + ".product.ssarc"@,
    {
        let mut string = String::from_str("Message/Msg_");
        string.append(self.to_str());
        string.append(".product.ssarc");
        string
    }

    /// The language named by the last four bytes of a file stem, such as
    /// `Bootup_USen`.
    pub fn from_stem(stem: &str) -> (res: Option<Language>)
        requires
            stem_slice_ok(stem.spec_bytes()),
        ensures
            res == spec_from_stem(stem.spec_bytes()),
    {
        broadcast use vstd::utf8::group_utf8_lib;

        let n = stem.as_bytes().len();
        if n < 4 {
            return None;
        }
        let (_, code) = stem.split_at(n - 4);
        assert(code@ == vstd::utf8::decode_utf8(code.spec_bytes()));
        match Language::from_code(code) {
            Ok(l) => Some(l),
            Err(_) => None,
        }
    }

    /// The language named in a message-archive stem such as
    /// `Msg_USen.product`: the four bytes that end eight bytes before the
    /// end.
    pub fn from_message_stem(stem: &str) -> (res: Option<Language>)
        requires
            message_stem_slice_ok(stem.spec_bytes()),
        ensures
            res == spec_from_message_stem(stem.spec_bytes()),
    {
        broadcast use vstd::utf8::group_utf8_lib;

        let n = stem.as_bytes().len();
        if n < 4 {
            return None;
        }
        let ghost bytes = stem.spec_bytes();
        let (_, rest) = stem.split_at(n - 12);
        assert(rest.spec_bytes()[4] == bytes[n - 8]);
        proof {
            vstd::utf8::encode_utf8_valid_utf8(stem@);
            vstd::utf8::encode_utf8_valid_utf8(rest@);
            vstd::utf8::is_char_boundary_iff_not_is_continuation_byte(bytes, n - 8);
            vstd::utf8::is_char_boundary_iff_not_is_continuation_byte(rest.spec_bytes(), 4);
        }
        assert(vstd::utf8::is_char_boundary(rest.spec_bytes(), 4));
        let (code, _) = rest.split_at(4);
        assert(code.spec_bytes() =~= bytes.subrange(n - 12, n - 8));
        assert(code@ == vstd::utf8::decode_utf8(code.spec_bytes()));
        match Language::from_code(code) {
            Ok(l) => Some(l),
            Err(_) => None,
        }
    }

    /// The language named by the end of a file's stem (the file name
    /// without its last extension), such as the `Bootup_USen` of
    /// `Pack/Bootup_USen.pack`; `None` when the stem's last four bytes do
    /// not start on a character boundary.
    pub fn from_path(path: &str) -> (res: Option<Language>)
        ensures
            spec_simple_stem(path@) matches Some(st) ==> res == spec_language_of_stem(st),
    {
        match file_stem_of(path) {
            None => None,
            Some(stem) => {
                let s = stem.as_str();
                let n = s.as_bytes().len();
                if n < 4 || s.is_char_boundary(n - 4) {
                    Language::from_stem(s)
                } else {
                    None
                }
            },
        }
    }

    /// The language named in a message archive's stem, such as the
    /// `Msg_USen.product` of `Message/Msg_USen.product.ssarc`; `None` when
    /// a stem of four bytes or more is shorter than twelve bytes or its
    /// code does not sit on character boundaries.
    pub fn from_message_path(path: &str) -> (res: Option<Language>)
        ensures
            spec_simple_stem(path@) matches Some(st) ==> res == spec_language_of_message_stem(st),
    {
        match file_stem_of(path) {
            None => None,
            Some(stem) => {
                let s = stem.as_str();
                let n = s.as_bytes().len();
                if n < 4 || (n >= 12 && s.is_char_boundary(n - 12) && s.is_char_boundary(n - 8)) {
                    Language::from_message_stem(s)
                } else {
                    None
                }
            },
        }
    }
}

/// The stem of a path, as `Path::file_stem` documents it, where its final
/// component (after its last `/`) is neither empty, `.` nor `..` and holds
/// no `\\` or `:`: the whole component when it has no `.` or only a
/// leading one, else the part before its last `.`.  `None` for other
/// paths.
pub open spec fn spec_simple_stem(p: Seq<char>) -> Option<Seq<char>> {
    let start = match spec_last_index_of(p, '/') {
        Some(s) => s + 1,
        None => 0,
    };
    let c = p.subrange(start, p.len() as int);
    if c.len() > 0 && c != "."@ && c != ".."@ && (forall|i: int|
        start <= i < p.len() ==> #[trigger] p[i] != '\\' && p[i] != ':') {
        match spec_last_index_of(p, '.') {
            Some(d) => if start < d {
                Some(p.subrange(start, d))
            } else {
                Some(c)
            },
            None => Some(c),
        }
    } else {
        None
    }
}

/// The language that a file stem names by its last four bytes; `None`
/// when they do not start on a character boundary.
pub open spec fn spec_language_of_stem(st: Seq<char>) -> Option<Language> {
    if stem_slice_ok(vstd::utf8::encode_utf8(st)) {
        spec_from_stem(vstd::utf8::encode_utf8(st))
    } else {
        None
    }
}

/// The language that a message-archive stem names; `None` when its code
/// bytes cannot be sliced out.
pub open spec fn spec_language_of_message_stem(st: Seq<char>) -> Option<Language> {
    if message_stem_slice_ok(vstd::utf8::encode_utf8(st)) {
        spec_from_message_stem(vstd::utf8::encode_utf8(st))
    } else {
        None
    }
}

/// `Path::file_stem`, as UTF-8 text (`OsStr::to_str`).  As its
/// documentation says, the stem of a final component with an embedded `.`
/// that does not begin with `.` is the part before its last `.`; for a
/// final component without `\\` or `:` that holds on every platform (see
/// `spec_simple_stem`).  Not stated: the stem of other paths.
#[verifier::external_body]
fn file_stem_of(path: &str) -> (res: Option<String>)
    ensures
        spec_simple_stem(path@) is Some ==> res is Some && res->Some_0@ == spec_simple_stem(
            path@,
        )->Some_0,
{
    std::path::Path::new(path).file_stem().and_then(|n| n.to_str()).map(|n| n.to_string())
}

impl From<Language> for LocLang {
    fn from(value: Language) -> (res: Self) {
        value.loc_lang()
    }
}

impl vstd::std_specs::convert::FromSpecImpl<Language> for LocLang {
    open spec fn obeys_from_spec() -> bool {
        true
    }

    open spec fn from_spec(value: Language) -> Self {
        spec_loc_lang(value)
    }
}

impl std::str::FromStr for Language {
    type Err = UKError;

    fn from_str(s: &str) -> (res: std::result::Result<Self, Self::Err>)
        ensures
            match res {
                Ok(l) => spec_language_of(s@) == Some(l),
                Err(e) => spec_language_of(s@) is None && (e matches UKError::OtherD(msg) && msg@
                    == "Invalid language: "@ + s@),
            },
    {
        Language::from_code(s)
    }
}

} // verus!
