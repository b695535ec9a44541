use vstd::prelude::*;

use crate::canon::{
    spec_apply_rule, spec_apply_rules, spec_canon_rules, spec_canonicalize, spec_replace_all,
    spec_replace_char, spec_trim_start_matches,
};
use crate::platform::{spec_platform_aoc, spec_platform_content, Endian};
use crate::text::spec_starts_with;
use crate::map_files::{
    lemma_last_index_of, spec_is_static, spec_last_index_of, spec_map_source, MapSource,
};
use crate::map_pack::{spec_add_statics, spec_map_pack, spec_rebuilt_pack};
use crate::map_unit::{
    array_at, bad_mod_key, map_at, merge_succeeds, merged_doc, merged_section,
};
use crate::byml_node::{byml_view, NodeView};
use roead::byml::Byml;
use crate::language::{
    lemma_first_with_short,
    spec_simple_stem, spec_language_of_stem, spec_language_of_message_stem,
    spec_all_languages, spec_code, spec_first_with_short, spec_from_message_stem,
    spec_from_stem, spec_language_of, spec_nearest, spec_short, Language,
};
use crate::map_merge::{
    spec_hash_key, spec_keep_survivors, spec_merge_section, spec_survives,
    MapObject, SectionDiff,
};

verus! {

broadcast use vstd::string::group_string_axioms;

/// Every language appears in the list of all languages, and no language
/// appears twice.
pub proof fn law_all_languages_listed_once(l: Language)
    ensures
        spec_all_languages().contains(l),
        forall|i: int, j: int|
            0 <= i < j < spec_all_languages().len() ==> spec_all_languages()[i]
                != spec_all_languages()[j],
{
    let all = spec_all_languages();
    match l {
        Language::USen => assert(all[0] == l),
        Language::EUen => assert(all[1] == l),
        Language::USfr => assert(all[2] == l),
        Language::USes => assert(all[3] == l),
        Language::EUde => assert(all[4] == l),
        Language::EUes => assert(all[5] == l),
        Language::EUfr => assert(all[6] == l),
        Language::EUit => assert(all[7] == l),
        Language::EUnl => assert(all[8] == l),
        Language::EUru => assert(all[9] == l),
        Language::CNzh => assert(all[10] == l),
        Language::JPja => assert(all[11] == l),
        Language::KRko => assert(all[12] == l),
        Language::TWzh => assert(all[13] == l),
    }
}

/// Reading a language's code gives the language back, and a code that is
/// read back is the language's code: `from_code` and `to_str` are inverse.
pub proof fn law_code_round_trip(l: Language, s: Seq<char>)
    ensures
        spec_language_of(spec_code(l)) == Some(l),
        spec_language_of(s) == Some(l) ==> s == spec_code(l),
{
    if spec_language_of(s) == Some(l) {
        assert(spec_code(l) =~= s);
    }
}

/// The short code is the language part of the code: the code's last two
/// characters.
pub proof fn law_short_is_code_suffix(l: Language)
    ensures
        spec_short(l).len() == 2,
        spec_code(l) == spec_code(l).subrange(0, 2) + spec_short(l),
{
    assert(spec_code(l) =~= spec_code(l).subrange(0, 2) + spec_short(l));
}

/// A first match by short code is a member of the list.
proof fn lemma_first_with_short_member(langs: Seq<Language>, short: Seq<char>)
    ensures
        spec_first_with_short(langs, short) matches Some(l) ==> langs.contains(l),
    decreases langs.len(),
{
    if langs.len() > 0 && spec_short(langs[0]) != short {
        let rest = langs.drop_first();
        lemma_first_with_short_member(rest, short);
        if let Some(l) = spec_first_with_short(rest, short) {
            let k = choose|k: int| 0 <= k < rest.len() && rest[k] == l;
            assert(langs[k + 1] == l);
        }
    } else if langs.len() > 0 {
        assert(langs[0] == langs[0]);
    }
}

/// The nearest language is taken from the offered list whenever the list
/// is not empty, and is the language itself when the list offers it.
pub proof fn law_nearest_is_offered(lang: Language, langs: Seq<Language>)
    ensures
        langs.len() > 0 ==> langs.contains(spec_nearest(lang, langs)),
        langs.contains(lang) ==> spec_nearest(lang, langs) == lang,
        langs.len() == 0 ==> spec_nearest(lang, langs) == Language::USen,
{
    lemma_first_with_short_member(langs, spec_short(lang));
    lemma_first_with_short_member(langs, seq!['e', 'n']);
    if langs.len() > 0 {
        assert(langs[0] == langs[0]);
    }
}

/// The stem of a language's boot-up archive (`Bootup_<code>`) names the
/// language, and so does the stem of its message archive
/// (`Msg_<code>.product`).
pub proof fn law_archive_stems_name_their_language(l: Language)
    ensures
        spec_from_stem(vstd::utf8::encode_utf8("Bootup_"@ + spec_code(l))) == Some(l),
        spec_from_message_stem(vstd::utf8::encode_utf8("Msg_"@ + spec_code(l) + ".product"@))
            == Some(l),
{
    reveal_strlit("Bootup_");
    reveal_strlit("Msg_");
    reveal_strlit(".product");
    let code = spec_code(l);
    let boot = "Bootup_"@ + code;
    let msg = "Msg_"@ + code + ".product"@;
    vstd::utf8::is_ascii_chars_encode_utf8(code);
    vstd::utf8::encode_utf8_decode_utf8(code);
    assert(vstd::utf8::is_ascii_chars(boot));
    vstd::utf8::is_ascii_chars_encode_utf8(boot);
    let bb = vstd::utf8::encode_utf8(boot);
    assert(bb.subrange(bb.len() - 4, bb.len() as int) =~= vstd::utf8::encode_utf8(code)) by {
        assert forall|i: int| 0 <= i < 4 implies bb.subrange(bb.len() - 4, bb.len() as int)[i]
            == vstd::utf8::encode_utf8(code)[i] by {
            assert(boot[7 + i] == code[i]);
        }
    }
    assert(vstd::utf8::is_ascii_chars(msg));
    vstd::utf8::is_ascii_chars_encode_utf8(msg);
    let mb = vstd::utf8::encode_utf8(msg);
    assert(mb.len() == 16);
    assert(mb.subrange(mb.len() - 12, mb.len() - 8) =~= vstd::utf8::encode_utf8(code)) by {
        assert forall|i: int| 0 <= i < 4 implies mb.subrange(mb.len() - 12, mb.len() - 8)[i]
            == vstd::utf8::encode_utf8(code)[i] by {
            assert(msg[4 + i] == code[i]);
        }
    }
    law_code_round_trip(l, code);
}

/// An ASCII text's encoding has a character boundary at every position.
proof fn lemma_ascii_boundary(chars: Seq<char>, i: int)
    requires
        vstd::utf8::is_ascii_chars(chars),
        0 <= i < chars.len(),
    ensures
        vstd::utf8::is_char_boundary(vstd::utf8::encode_utf8(chars), i),
{
    vstd::utf8::is_ascii_chars_encode_utf8(chars);
    vstd::utf8::encode_utf8_valid_utf8(chars);
    let b = vstd::utf8::encode_utf8(chars);
    assert(chars[i] as u8 == b[i]);
    assert(b[i] < 0x80);
    vstd::utf8::is_char_boundary_iff_not_is_continuation_byte(b, i);
}

/// The stem of `<dir>/<name>.<ext>`, where `<dir>` has a `/` at its end
/// position and `<name>` and `<ext>` hold no `/`, `.`, `\\` or `:` (the
/// name's first character aside from `.`), is `<name>`.
proof fn lemma_simple_stem(dir: Seq<char>, name: Seq<char>, ext: Seq<char>)
    requires
        dir.len() > 0,
        dir.last() == '/',
        name.len() > 0,
        name[0] != '.',
        forall|i: int| 0 <= i < name.len() ==> #[trigger] name[i] != '/' && name[i] != '\\' && name[i] != ':',
        forall|i: int|
            0 <= i < ext.len() ==> #[trigger] ext[i] != '/' && ext[i] != '.' && ext[i] != '\\' && ext[i]
                != ':',
    ensures
        spec_simple_stem(dir + name + "."@ + ext) == Some(name),
{
    reveal_strlit(".");
    reveal_strlit("..");
    let p = dir + name + "."@ + ext;
    let d = (dir.len() + name.len()) as int;
    lemma_last_index_of(p, '.', d + 1);
    assert(p.subrange(0, d + 1).last() == '.');
    assert(spec_last_index_of(p.subrange(0, d + 1), '.') == Some(d));
    lemma_last_index_of(p, '/', dir.len() as int);
    assert(p.subrange(0, dir.len() as int) =~= dir);
    assert(spec_last_index_of(dir, '/') == Some(dir.len() - 1));
    assert(p.subrange(dir.len() as int, d) =~= name);
    let c = p.subrange(dir.len() as int, p.len() as int);
    assert(c[0] == name[0]);
    assert(c.len() >= 2);
    assert(c != "."@);
    assert(c != ".."@) by {
        if c == ".."@ {
            assert(c[0] == '.');
        }
    }
}

/// The boot-up and message archive paths of a language name it: their
/// stems are `Bootup_<code>` and `Msg_<code>.product`, which name the
/// language.
pub proof fn law_archive_paths_name_their_language(l: Language)
    ensures
        spec_simple_stem("Pack/Bootup_"@ + spec_code(l) + ".pack"@) == Some(
            "Bootup_"@ + spec_code(l),
        ),
        spec_language_of_stem("Bootup_"@ + spec_code(l)) == Some(l),
        spec_simple_stem("Message/Msg_"@ + spec_code(l) + ".product.ssarc"@) == Some(
            "Msg_"@ + spec_code(l) + ".product"@,
        ),
        spec_language_of_message_stem("Msg_"@ + spec_code(l) + ".product"@) == Some(l),
{
    reveal_strlit("Pack/Bootup_");
    reveal_strlit("Bootup_");
    reveal_strlit("Pack/");
    reveal_strlit(".pack");
    reveal_strlit("pack");
    reveal_strlit(".");
    reveal_strlit("Message/Msg_");
    reveal_strlit("Message/");
    reveal_strlit("Msg_");
    reveal_strlit(".product.ssarc");
    reveal_strlit(".product");
    reveal_strlit("ssarc");
    let code = spec_code(l);
    assert(forall|i: int| 0 <= i < 4 ==> 'A' <= #[trigger] code[i] <= 'z');
    let boot = "Bootup_"@ + code;
    assert("Pack/Bootup_"@ + code + ".pack"@ =~= "Pack/"@ + boot + "."@ + "pack"@);
    lemma_simple_stem("Pack/"@, boot, "pack"@);
    let msg = "Msg_"@ + code + ".product"@;
    assert("Message/Msg_"@ + code + ".product.ssarc"@ =~= "Message/"@ + msg + "."@ + "ssarc"@);
    lemma_simple_stem("Message/"@, msg, "ssarc"@);
    law_archive_stems_name_their_language(l);
    assert(vstd::utf8::is_ascii_chars(boot));
    assert(vstd::utf8::is_ascii_chars(msg));
    vstd::utf8::is_ascii_chars_encode_utf8(boot);
    vstd::utf8::is_ascii_chars_encode_utf8(msg);
    lemma_ascii_boundary(boot, boot.len() - 4);
    lemma_ascii_boundary(msg, msg.len() - 12);
    lemma_ascii_boundary(msg, msg.len() - 8);
}

/// Replacing a pattern that holds no backslash, by text that holds none,
/// adds no backslash.
proof fn lemma_replace_all_no_backslash(s: Seq<char>, pat: Seq<char>, rep: Seq<char>)
    requires
        !s.contains('\\'),
        !rep.contains('\\'),
    ensures
        !spec_replace_all(s, pat, rep).contains('\\'),
    decreases s.len(),
{
    if s.len() > 0 {
        if pat.len() > 0 && pat.len() <= s.len() && s.subrange(0, pat.len() as int) == pat {
            let rest = s.subrange(pat.len() as int, s.len() as int);
            assert(!rest.contains('\\')) by {
                if rest.contains('\\') {
                    let k = choose|k: int| 0 <= k < rest.len() && rest[k] == '\\';
                    assert(s[k + pat.len()] == '\\');
                }
            }
            lemma_replace_all_no_backslash(rest, pat, rep);
            let out = rep + spec_replace_all(rest, pat, rep);
            assert(!out.contains('\\')) by {
                if out.contains('\\') {
                    let k = choose|k: int| 0 <= k < out.len() && out[k] == '\\';
                    if k < rep.len() {
                        assert(rep[k] == '\\');
                    } else {
                        assert(spec_replace_all(rest, pat, rep)[k - rep.len()] == '\\');
                    }
                }
            }
        } else {
            let rest = s.drop_first();
            assert(!rest.contains('\\')) by {
                if rest.contains('\\') {
                    let k = choose|k: int| 0 <= k < rest.len() && rest[k] == '\\';
                    assert(s[k + 1] == '\\');
                }
            }
            lemma_replace_all_no_backslash(rest, pat, rep);
            let out = seq![s[0]] + spec_replace_all(rest, pat, rep);
            assert(!out.contains('\\')) by {
                if out.contains('\\') {
                    let k = choose|k: int| 0 <= k < out.len() && out[k] == '\\';
                    if k == 0 {
                        assert(s.contains(s[0]));
                        assert(s[0] == '\\');
                    } else {
                        assert(spec_replace_all(rest, pat, rep)[k - 1] == '\\');
                    }
                }
            }
        }
    }
}

/// Trimming leading copies of a prefix keeps a backslash-free text free of
/// backslashes.
proof fn lemma_trim_no_backslash(s: Seq<char>, prefix: Seq<char>)
    requires
        !s.contains('\\'),
    ensures
        !spec_trim_start_matches(s, prefix).contains('\\'),
    decreases s.len(),
{
    if prefix.len() > 0 && prefix.len() <= s.len() && s.subrange(0, prefix.len() as int)
        == prefix {
        let rest = s.subrange(prefix.len() as int, s.len() as int);
        assert(!rest.contains('\\')) by {
            if rest.contains('\\') {
                let k = choose|k: int| 0 <= k < rest.len() && rest[k] == '\\';
                assert(s[k + prefix.len()] == '\\');
            }
        }
        lemma_trim_no_backslash(rest, prefix);
    }
}

/// The rewrites of the first `n` rules keep a backslash-free text free of
/// backslashes.
proof fn lemma_rules_no_backslash(s: Seq<char>, n: int)
    requires
        !s.contains('\\'),
        0 <= n <= spec_canon_rules().len(),
    ensures
        !spec_apply_rules(s, spec_canon_rules().take(n)).contains('\\'),
    decreases n,
{
    let rules = spec_canon_rules().take(n);
    if n > 0 {
        assert(rules.drop_last() =~= spec_canon_rules().take(n - 1));
        lemma_rules_no_backslash(s, n - 1);
        let prev = spec_apply_rules(s, rules.drop_last());
        let rule = rules.last();
        reveal_strlit("");
        reveal_strlit("Aoc/0010");
        reveal_strlit("Aoc");
        assert(!rule.1.contains('\\')) by {
            if rule.1.contains('\\') {
                let k = choose|k: int| 0 <= k < rule.1.len() && rule.1[k] == '\\';
                assert(rule.1 == ""@ || rule.1 == "Aoc/0010"@ || rule.1 == "Aoc"@);
            }
        }
        lemma_trim_no_backslash(prev, rule.0);
        let out = spec_apply_rule(prev, rule);
        assert(!out.contains('\\')) by {
            if out.contains('\\') && out != prev {
                let t = spec_trim_start_matches(prev, rule.0);
                let k = choose|k: int| 0 <= k < out.len() && out[k] == '\\';
                if k < rule.1.len() {
                    assert(rule.1[k] == '\\');
                } else {
                    assert(t[k - rule.1.len()] == '\\');
                }
            }
        }
    }
}

/// A canonical path holds no backslash.
pub proof fn law_canonical_paths_use_slashes(path: Seq<char>)
    ensures
        !spec_canonicalize(path).contains('\\'),
{
    let replaced = spec_replace_char(path, '\\', '/');
    assert(!replaced.contains('\\')) by {
        if replaced.contains('\\') {
            let k = choose|k: int| 0 <= k < replaced.len() && replaced[k] == '\\';
            assert(replaced[k] == if path[k] == '\\' { '/' } else { path[k] });
        }
    }
    lemma_rules_no_backslash(replaced, spec_canon_rules().len() as int);
    assert(spec_canon_rules().take(spec_canon_rules().len() as int) =~= spec_canon_rules());
    reveal_strlit(".");
    assert(!"."@.contains('\\')) by {
        if "."@.contains('\\') {
            let k = choose|k: int| 0 <= k < "."@.len() && "."@[k] == '\\';
        }
    }
    lemma_replace_all_no_backslash(
        spec_apply_rules(replaced, spec_canon_rules()),
        ".s"@,
        "."@,
    );
}

/// A diff with no edits leaves a section as it is.
pub proof fn law_empty_diff_is_identity<T>(base: Seq<MapObject<T>>, diff: SectionDiff<T>)
    requires
        diff.mods is None,
        diff.dels is None,
        diff.adds is None,
    ensures
        spec_merge_section(base, diff) == base,
{
}

/// The objects kept by the `del` list are exactly the surviving ones: each
/// kept object carries a `HashId` the list does not name, and no object
/// whose `HashId` the list names is kept.
pub proof fn law_deleted_objects_are_gone<T>(s: Seq<MapObject<T>>, dels: Seq<roead::byml::Byml>)
    ensures
        forall|i: int|
            0 <= i < spec_keep_survivors(s, dels).len() ==> spec_survives(
                #[trigger] spec_keep_survivors(s, dels)[i],
                dels,
            ),
        spec_keep_survivors(s, dels).len() <= s.len(),
    decreases s.len(),
{
    if s.len() > 0 {
        law_deleted_objects_are_gone(s.drop_last(), dels);
    }
}

/// Without a `del` list and `add` list, the `mod` table replaces objects
/// in place: the section keeps its length, and every object that carries
/// no integer hash is kept as it is.
pub proof fn law_mods_replace_in_place<T>(base: Seq<MapObject<T>>, diff: SectionDiff<T>)
    requires
        diff.dels is None,
        diff.adds is None,
    ensures
        spec_merge_section(base, diff).len() == base.len(),
        forall|j: int|
            0 <= j < base.len() && spec_hash_key(base[j]) is None ==> #[trigger] spec_merge_section(
                base,
                diff,
            )[j] == base[j],
{
}

/// The `add` list only appends: the merged section begins with what the
/// `mod` table and the `del` list leave of it.
pub proof fn law_adds_append<T>(base: Seq<MapObject<T>>, diff: SectionDiff<T>)
    ensures
        spec_merge_section(base, diff).subrange(
            0,
            spec_merge_section(base, (SectionDiff { mods: diff.mods, dels: diff.dels, adds: None })).len() as int,
        ) == spec_merge_section(base, (SectionDiff { mods: diff.mods, dels: diff.dels, adds: None })),
{
    let merged = spec_merge_section(base, diff);
    let kept = spec_merge_section(
        base,
        (SectionDiff { mods: diff.mods, dels: diff.dels, adds: None }),
    );
    assert(merged.subrange(0, kept.len() as int) =~= kept);
}

/// A text does not begin with `k` when they differ at a position both
/// reach.
proof fn lemma_not_prefix(s: Seq<char>, k: Seq<char>, j: int)
    requires
        0 <= j < k.len(),
        j < s.len(),
        s[j] != k[j],
    ensures
        !spec_starts_with(s, k),
{
    if spec_starts_with(s, k) {
        assert(s.subrange(0, k.len() as int)[j] == k[j]);
    }
}

/// Rewrites whose prefixes `s` does not begin with leave `s` as it is.
proof fn lemma_no_rule_applies(s: Seq<char>, rules: Seq<(Seq<char>, Seq<char>)>)
    requires
        forall|i: int| 0 <= i < rules.len() ==> !spec_starts_with(s, (#[trigger] rules[i]).0),
    ensures
        spec_apply_rules(s, rules) == s,
    decreases rules.len(),
{
    if rules.len() > 0 {
        let prev = rules.drop_last();
        assert forall|i: int| 0 <= i < prev.len() implies !spec_starts_with(
            s,
            (#[trigger] prev[i]).0,
        ) by {
            assert(prev[i] == rules[i]);
        }
        lemma_no_rule_applies(s, prev);
        assert(!spec_starts_with(s, rules[rules.len() - 1].0));
    }
}

/// Applying two runs of rewrites one after the other is applying their
/// concatenation.
proof fn lemma_apply_rules_concat(
    s: Seq<char>,
    a: Seq<(Seq<char>, Seq<char>)>,
    b: Seq<(Seq<char>, Seq<char>)>,
)
    ensures
        spec_apply_rules(s, a + b) == spec_apply_rules(spec_apply_rules(s, a), b),
    decreases b.len(),
{
    if b.len() == 0 {
        assert(a + b =~= a);
    } else {
        assert((a + b).drop_last() =~= a + b.drop_last());
        assert((a + b).last() == b.last());
        lemma_apply_rules_concat(s, a, b.drop_last());
    }
}

/// The canonical DLC text `Aoc/0010/<rest>` begins with no rewrite prefix.
proof fn lemma_canonical_dlc_is_fixed(q: Seq<char>)
    ensures
        spec_apply_rules("Aoc/0010/"@ + q, spec_canon_rules()) == "Aoc/0010/"@ + q,
{
    reveal_strlit("Aoc/0010/");
    let s = "Aoc/0010/"@ + q;
    let rules = spec_canon_rules();
    assert(s[0] == 'A');
    assert forall|i: int| 0 <= i < rules.len() implies !spec_starts_with(
        s,
        (#[trigger] rules[i]).0,
    ) by {
        lemma_rule_prefix_first_chars(i);
        lemma_not_prefix(s, rules[i].0, 0);
    }
    lemma_no_rule_applies(s, rules);
}

/// Every rewrite prefix is non-empty and begins with a lower-case letter,
/// a digit or `C`.
proof fn lemma_rule_prefix_first_chars(i: int)
    requires
        0 <= i < spec_canon_rules().len(),
    ensures
        spec_canon_rules()[i].0.len() > 0,
        spec_canon_rules()[i].0[0] != 'A',
{
    reveal_strlit("Content/");
    reveal_strlit("content/");
    reveal_strlit("atmosphere/titles/");
    reveal_strlit("atmosphere/contents/");
    reveal_strlit("01007EF00011E000/romfs/");
    reveal_strlit("01007ef00011e000/romfs/");
    reveal_strlit("01007EF00011E001/romfs");
    reveal_strlit("01007EF00011E002/romfs");
    reveal_strlit("01007EF00011F001/romfs");
    reveal_strlit("01007EF00011F002/romfs");
    reveal_strlit("01007ef00011e001/romfs");
    reveal_strlit("01007ef00011e002/romfs");
    reveal_strlit("01007ef00011f001/romfs");
    reveal_strlit("01007ef00011f002/romfs");
    reveal_strlit("romfs/");
    reveal_strlit("aoc/content");
    reveal_strlit("aoc");
}

/// A path with a rewrite prefix `key` and no replacement, followed by a
/// text that begins with no rewrite prefix, rewrites to that text when no
/// earlier rule applies.
proof fn lemma_rule_then_fixed(s: Seq<char>, q: Seq<char>, r: int)
    requires
        0 <= r < spec_canon_rules().len(),
        forall|i: int| 0 <= i < r ==> !spec_starts_with(s, (#[trigger] spec_canon_rules()[i]).0),
        s == spec_canon_rules()[r].0 + q,
        spec_canon_rules()[r].1 == Seq::<char>::empty(),
        forall|i: int|
            0 <= i < spec_canon_rules().len() ==> !spec_starts_with(
                q,
                (#[trigger] spec_canon_rules()[i]).0,
            ),
    ensures
        spec_apply_rules(s, spec_canon_rules()) == q,
{
    let rules = spec_canon_rules();
    let key = rules[r].0;
    lemma_rule_prefix_first_chars(r);
    assert(rules =~= rules.take(r) + seq![rules[r]] + rules.skip(r + 1));
    lemma_apply_rules_concat(s, rules.take(r) + seq![rules[r]], rules.skip(r + 1));
    lemma_apply_rules_concat(s, rules.take(r), seq![rules[r]]);
    assert forall|i: int| 0 <= i < r implies !spec_starts_with(s, (#[trigger] rules.take(r)[i]).0) by {
        assert(rules.take(r)[i] == rules[i]);
    }
    lemma_no_rule_applies(s, rules.take(r));
    assert(seq![rules[r]].drop_last() =~= Seq::<(Seq<char>, Seq<char>)>::empty());
    assert(spec_apply_rules(s, Seq::<(Seq<char>, Seq<char>)>::empty()) == s);
    assert(seq![rules[r]].last() == rules[r]);
    assert(spec_apply_rules(s, seq![rules[r]]) == spec_apply_rule(s, rules[r]));
    assert(spec_starts_with(s, key)) by {
        assert(s.subrange(0, key.len() as int) =~= key);
    }
    assert(s.subrange(key.len() as int, s.len() as int) =~= q);
    assert(!spec_starts_with(q, key));
    assert(spec_trim_start_matches(q, key) == q);
    assert(spec_trim_start_matches(s, key) == q);
    assert(spec_apply_rule(s, rules[r]) =~= q);
    assert forall|i: int| 0 <= i < rules.skip(r + 1).len() implies !spec_starts_with(
        q,
        (#[trigger] rules.skip(r + 1)[i]).0,
    ) by {
        assert(rules.skip(r + 1)[i] == rules[i + r + 1]);
    }
    lemma_no_rule_applies(q, rules.skip(r + 1));
}

/// Base-game files of either platform get one canonical name: the content
/// folder of the platform followed by a path canonicalizes as that path
/// does, when the path (with its backslashes made slashes) begins with no
/// rewrite prefix of its own.
pub proof fn law_content_paths_agree(e: Endian, p: Seq<char>)
    requires
        forall|i: int|
            0 <= i < spec_canon_rules().len() ==> !spec_starts_with(
                spec_replace_char(p, '\\', '/'),
                (#[trigger] spec_canon_rules()[i]).0,
            ),
    ensures
        spec_canonicalize(spec_platform_content(e) + "/"@ + p) == spec_canonicalize(p),
{
    reveal_strlit("/");
    reveal_strlit("content");
    reveal_strlit("01007EF00011E000/romfs");
    reveal_strlit("Content/");
    reveal_strlit("content/");
    reveal_strlit("atmosphere/titles/");
    reveal_strlit("atmosphere/contents/");
    reveal_strlit("01007EF00011E000/romfs/");
    reveal_strlit("");
    let rules = spec_canon_rules();
    assert(rules[1].1 =~= Seq::<char>::empty());
    assert(rules[4].1 =~= Seq::<char>::empty());
    let q = spec_replace_char(p, '\\', '/');
    let prefix = spec_platform_content(e) + "/"@;
    assert(spec_replace_char(prefix + p, '\\', '/') =~= prefix + q);
    lemma_no_rule_applies(q, rules);
    let s = prefix + q;
    match e {
        Endian::Big => {
            assert(s =~= rules[1].0 + q);
            assert(!spec_starts_with(s, rules[0].0)) by {
                lemma_not_prefix(s, rules[0].0, 0);
            }
            lemma_rule_then_fixed(s, q, 1);
        },
        Endian::Little => {
            assert(s =~= rules[4].0 + q);
            assert forall|i: int| 0 <= i < 4 implies !spec_starts_with(
                s,
                (#[trigger] rules[i]).0,
            ) by {
                lemma_not_prefix(s, rules[i].0, 0);
            }
            lemma_rule_then_fixed(s, q, 4);
        },
    }
}

/// DLC files of either platform get one canonical name: the DLC folder of
/// the platform followed by a path canonicalizes as `Aoc/0010/` followed by
/// that path does.
#[verifier::rlimit(40)]
pub proof fn law_dlc_paths_agree(e: Endian, p: Seq<char>)
    ensures
        spec_canonicalize(spec_platform_aoc(e) + "/"@ + p) == spec_canonicalize(
            "Aoc/0010/"@ + p,
        ),
{
    reveal_strlit("Aoc/0010/");
    reveal_strlit("Aoc/0010");
    reveal_strlit("Aoc");
    reveal_strlit("/");
    reveal_strlit("aoc/0010");
    reveal_strlit("01007EF00011F001/romfs");
    let q = spec_replace_char(p, '\\', '/');
    let prefix = spec_platform_aoc(e) + "/"@;
    assert(spec_replace_char(prefix + p, '\\', '/') =~= prefix + q);
    assert(spec_replace_char("Aoc/0010/"@ + p, '\\', '/') =~= "Aoc/0010/"@ + q);
    lemma_canonical_dlc_is_fixed(q);
    let rules = spec_canon_rules();
    let s = prefix + q;
    match e {
        Endian::Big => {
            assert(rules =~= rules.take(16) + seq![rules[16]]);
            lemma_apply_rules_concat(s, rules.take(16), seq![rules[16]]);
            assert forall|i: int| 0 <= i < 16 implies !spec_starts_with(
                s,
                (#[trigger] rules.take(16)[i]).0,
            ) by {
                lemma_big_dlc_prefix_mismatch(q, i);
            }
            lemma_no_rule_applies(s, rules.take(16));
            reveal_strlit("aoc");
            let key = rules[16].0;
            assert(key == "aoc"@);
            assert(spec_starts_with(s, key)) by {
                assert(s.subrange(0, 3) =~= key);
            }
            let rest = s.subrange(3, s.len() as int);
            assert(!spec_starts_with(rest, key)) by {
                lemma_not_prefix(rest, key, 0);
            }
            assert(spec_trim_start_matches(rest, key) == rest);
            assert(spec_trim_start_matches(s, key) == rest);
            assert(spec_apply_rules(s, rules) =~= "Aoc/0010/"@ + q);
        },
        Endian::Little => {
            assert(rules =~= rules.take(8) + seq![rules[8]] + rules.skip(9));
            lemma_apply_rules_concat(s, rules.take(8) + seq![rules[8]], rules.skip(9));
            lemma_apply_rules_concat(s, rules.take(8), seq![rules[8]]);
            assert forall|i: int| 0 <= i < 8 implies !spec_starts_with(
                s,
                (#[trigger] rules.take(8)[i]).0,
            ) by {
                lemma_little_dlc_prefix_mismatch(q, i);
            }
            lemma_no_rule_applies(s, rules.take(8));
            let key = rules[8].0;
            assert(key == "01007EF00011F001/romfs"@);
            assert(spec_starts_with(s, key)) by {
                assert(s.subrange(0, 22) =~= key);
            }
            let rest = s.subrange(22, s.len() as int);
            assert(!spec_starts_with(rest, key)) by {
                lemma_not_prefix(rest, key, 0);
            }
            assert(spec_trim_start_matches(rest, key) == rest);
            assert(spec_trim_start_matches(s, key) == rest);
            let mid = spec_apply_rules(s, rules.take(8) + seq![rules[8]]);
            assert(seq![rules[8]].drop_last() =~= Seq::<(Seq<char>, Seq<char>)>::empty());
            assert(spec_apply_rules(s, Seq::<(Seq<char>, Seq<char>)>::empty()) == s);
            assert(seq![rules[8]].last() == rules[8]);
            assert(spec_apply_rules(s, seq![rules[8]]) == spec_apply_rule(s, rules[8]));
            assert(rest =~= "/"@ + q);
            assert(mid == "Aoc/0010"@ + rest);
            assert(mid =~= "Aoc/0010/"@ + q);
            assert(rules.skip(9) =~= rules.subrange(9, 17));
            assert forall|i: int| 0 <= i < rules.skip(9).len() implies !spec_starts_with(
                mid,
                (#[trigger] rules.skip(9)[i]).0,
            ) by {
                lemma_rule_prefix_first_chars(i + 9);
                lemma_not_prefix(mid, rules[i + 9].0, 0);
            }
            lemma_no_rule_applies(mid, rules.skip(9));
        },
    }
}

/// Replacing `.s` by `.` leaves a leading text without `.` in place.
proof fn lemma_replace_all_prefix(a: Seq<char>, s: Seq<char>)
    requires
        forall|i: int| 0 <= i < a.len() ==> #[trigger] a[i] != '.',
    ensures
        spec_replace_all(a + s, ".s"@, "."@) == a + spec_replace_all(s, ".s"@, "."@),
    decreases a.len(),
{
    reveal_strlit(".s");
    if a.len() > 0 {
        let t = a.drop_first();
        assert forall|i: int| 0 <= i < t.len() implies #[trigger] t[i] != '.' by {
            assert(t[i] == a[i + 1]);
        }
        lemma_replace_all_prefix(t, s);
        let x = a + s;
        assert(x[0] == a[0]);
        assert(!spec_starts_with(x, ".s"@)) by {
            lemma_not_prefix(x, ".s"@, 0);
        }
        assert(x.drop_first() =~= t + s);
        assert(a =~= seq![a[0]] + t);
        assert(spec_replace_all(x, ".s"@, "."@) == seq![x[0]] + spec_replace_all(
            x.drop_first(),
            ".s"@,
            "."@,
        ));
    } else {
        assert(a + s =~= s);
    }
}

/// DLC files canonicalize under `Aoc/0010/`: the DLC folder of either
/// platform followed by a path canonicalizes as `Aoc/0010/` followed by the
/// path's own canonical form, when the path (with its backslashes made
/// slashes) begins with no rewrite prefix.
pub proof fn law_dlc_paths_canonical(e: Endian, p: Seq<char>)
    requires
        forall|i: int|
            0 <= i < spec_canon_rules().len() ==> !spec_starts_with(
                spec_replace_char(p, '\\', '/'),
                (#[trigger] spec_canon_rules()[i]).0,
            ),
    ensures
        spec_canonicalize(spec_platform_aoc(e) + "/"@ + p) == "Aoc/0010/"@ + spec_canonicalize(p),
{
    reveal_strlit("Aoc/0010/");
    law_dlc_paths_agree(e, p);
    let q = spec_replace_char(p, '\\', '/');
    let a = "Aoc/0010/"@;
    assert(spec_replace_char(a + p, '\\', '/') =~= a + q);
    lemma_canonical_dlc_is_fixed(q);
    lemma_no_rule_applies(q, spec_canon_rules());
    lemma_replace_all_prefix(a, q);
}

/// The first sixteen rewrite prefixes do not begin `aoc/0010/...`.
proof fn lemma_big_dlc_prefix_mismatch(q: Seq<char>, i: int)
    requires
        0 <= i < 16,
    ensures
        !spec_starts_with("aoc/0010"@ + "/"@ + q, spec_canon_rules().take(16)[i].0),
{
    reveal_strlit("aoc/0010");
    reveal_strlit("/");
    reveal_strlit("Content/");
    reveal_strlit("content/");
    reveal_strlit("atmosphere/titles/");
    reveal_strlit("atmosphere/contents/");
    reveal_strlit("01007EF00011E000/romfs/");
    reveal_strlit("01007ef00011e000/romfs/");
    reveal_strlit("01007EF00011E001/romfs");
    reveal_strlit("01007EF00011E002/romfs");
    reveal_strlit("01007EF00011F001/romfs");
    reveal_strlit("01007EF00011F002/romfs");
    reveal_strlit("01007ef00011e001/romfs");
    reveal_strlit("01007ef00011e002/romfs");
    reveal_strlit("01007ef00011f001/romfs");
    reveal_strlit("01007ef00011f002/romfs");
    reveal_strlit("romfs/");
    reveal_strlit("aoc/content");
    let s = "aoc/0010"@ + "/"@ + q;
    let k = spec_canon_rules()[i].0;
    assert(spec_canon_rules().take(16)[i] == spec_canon_rules()[i]);
    if i == 2 || i == 3 {
        lemma_not_prefix(s, k, 1);
    } else if i == 15 {
        lemma_not_prefix(s, k, 4);
    } else {
        lemma_not_prefix(s, k, 0);
    }
}

/// The first eight rewrite prefixes do not begin the Switch DLC folder.
proof fn lemma_little_dlc_prefix_mismatch(q: Seq<char>, i: int)
    requires
        0 <= i < 8,
    ensures
        !spec_starts_with("01007EF00011F001/romfs"@ + "/"@ + q, spec_canon_rules().take(8)[i].0),
{
    reveal_strlit("01007EF00011F001/romfs");
    reveal_strlit("/");
    reveal_strlit("Content/");
    reveal_strlit("content/");
    reveal_strlit("atmosphere/titles/");
    reveal_strlit("atmosphere/contents/");
    reveal_strlit("01007EF00011E000/romfs/");
    reveal_strlit("01007ef00011e000/romfs/");
    reveal_strlit("01007EF00011E001/romfs");
    reveal_strlit("01007EF00011E002/romfs");
    let s = "01007EF00011F001/romfs"@ + "/"@ + q;
    let k = spec_canon_rules()[i].0;
    assert(spec_canon_rules().take(8)[i] == spec_canon_rules()[i]);
    if i == 5 {
        lemma_not_prefix(s, k, 5);
    } else if i >= 4 {
        lemma_not_prefix(s, k, 12);
    } else {
        lemma_not_prefix(s, k, 0);
    }
}


/// Where a map unit's unmodified bytes come from: an option folder's unit
/// that the root folder has already rebuilt is taken from there; otherwise
/// a static unit always comes from the dump's static-map pack, and a
/// dynamic one from the DLC dump when there is one, else from the base
/// dump; any other load type names no unit.
pub proof fn law_map_sources(is_root: bool, root_has_copy: bool, has_aoc_dump: bool, load_type: Seq<char>)
    ensures
        !is_root && root_has_copy ==> spec_map_source(is_root, root_has_copy, load_type, has_aoc_dump)
            == Some(MapSource::RootCopy),
        is_root || !root_has_copy ==> spec_map_source(is_root, root_has_copy, "Static"@, has_aoc_dump)
            == Some(MapSource::StaticPack),
        is_root || !root_has_copy ==> spec_map_source(is_root, root_has_copy, "Dynamic"@, true)
            == Some(MapSource::AocDump),
        is_root || !root_has_copy ==> spec_map_source(is_root, root_has_copy, "Dynamic"@, false)
            == Some(MapSource::BaseDump),
        (is_root || !root_has_copy) && load_type != "Static"@ && load_type != "Dynamic"@
            ==> spec_map_source(is_root, root_has_copy, load_type, has_aoc_dump) is None,
{
    reveal_strlit("Static");
    reveal_strlit("Dynamic");
    assert("Static"@ != "Dynamic"@) by {
        assert("Static"@.len() != "Dynamic"@.len());
    }
}

/// Storing the static units keeps the last static unit of each name under
/// that name, with its data, whatever the pack held before.
proof fn lemma_add_statics_last_wins(
    files: Map<Seq<char>, Seq<u8>>,
    maps: Seq<(String, Vec<u8>)>,
    j: int,
)
    requires
        0 <= j < maps.len(),
        spec_is_static(maps[j].0@),
        forall|k: int| j < k < maps.len() ==> (#[trigger] maps[k]).0@ != maps[j].0@,
    ensures
        spec_add_statics(files, maps).contains_key(maps[j].0@),
        spec_add_statics(files, maps)[maps[j].0@] == maps[j].1@,
    decreases maps.len(),
{
    let prev = maps.drop_last();
    if j < maps.len() - 1 {
        assert forall|k: int| j < k < prev.len() implies (#[trigger] prev[k]).0@ != prev[j].0@ by {
            assert(prev[k] == maps[k]);
        }
        assert(prev[j] == maps[j]);
        lemma_add_statics_last_wins(files, prev, j);
        assert(maps.last() == maps[maps.len() - 1]);
        assert(maps.last().0@ != maps[j].0@);
    }
}

/// Every static map unit of `maps` (the last of its name) is stored in the
/// rebuilt static-map pack under its path, with its data: whether the pack
/// starts from the mod's own pack or from the dump's, and whatever file of
/// that name the pack held.
pub proof fn law_static_units_are_stored(
    root: Option<Map<Seq<char>, Seq<u8>>>,
    dump: Map<Seq<char>, Seq<u8>>,
    listing: Seq<(Option<Seq<char>>, Seq<u8>)>,
    maps: Seq<(String, Vec<u8>)>,
    j: int,
)
    requires
        0 <= j < maps.len(),
        spec_is_static(maps[j].0@),
        forall|k: int| j < k < maps.len() ==> (#[trigger] maps[k]).0@ != maps[j].0@,
    ensures
        spec_map_pack(root, dump, listing, maps).contains_key(maps[j].0@),
        spec_map_pack(root, dump, listing, maps)[maps[j].0@] == maps[j].1@,
{
    match root {
        Some(files) => lemma_add_statics_last_wins(
            crate::map_pack::spec_add_missing(files, listing),
            maps,
            j,
        ),
        None => lemma_add_statics_last_wins(dump, maps, j),
    }
}

/// The pack that `rebuild_map_pack` writes holds every static map unit
/// (the last of its name) with its data, from whichever pack it starts.
pub proof fn law_rebuilt_pack_stores_static_units(
    root_pack: Option<Seq<u8>>,
    dump_pack: Seq<u8>,
    maps: Seq<(String, Vec<u8>)>,
    j: int,
)
    requires
        0 <= j < maps.len(),
        spec_is_static(maps[j].0@),
        forall|k: int| j < k < maps.len() ==> (#[trigger] maps[k]).0@ != maps[j].0@,
    ensures
        spec_rebuilt_pack(root_pack, dump_pack, maps).contains_key(maps[j].0@),
        spec_rebuilt_pack(root_pack, dump_pack, maps)[maps[j].0@] == maps[j].1@,
{
    law_static_units_are_stored(
        crate::map_pack::spec_root_files(root_pack),
        crate::map_pack::spec_named_files(crate::map_pack::sarc_listing(dump_pack)),
        crate::map_pack::sarc_listing(dump_pack),
        maps,
        j,
    );
}

/// Both sections of a map unit take their edits: in a merged document,
/// `Objs` and `Rails` each hold, where the diff's section is a map and the
/// map unit's an array, the map unit's objects merged with that section's
/// `mod`, `del` and `add` edits; every other entry keeps its value.
pub proof fn law_sections_are_merged(base: Byml, diff: Byml, doc: Byml, key: Seq<char>)
    requires
        merged_doc(base, diff, doc),
    ensures
        ({
            let b = byml_view(base)->StrMap_0;
            let dm = byml_view(diff)->StrMap_0;
            let m = byml_view(doc)->StrMap_0;
            &&& byml_view(doc) is StrMap
            &&& m.dom() == b.dom()
            &&& (key == "Objs"@ || key == "Rails"@) && map_at(dm, key) is Some && array_at(b, key)
                is Some ==> m.contains_key(key) && (byml_view(m[key]) matches NodeView::Array(out)
                && merged_section(array_at(b, key)->Some_0, map_at(dm, key)->Some_0, out))
            &&& key != "Objs"@ && key != "Rails"@ && b.contains_key(key) ==> m[key] == b[key]
        }),
{
    let b = byml_view(base)->StrMap_0;
    if b.contains_key(key) {
        assert(b.contains_key(key));
    }
    if array_at(b, key) is Some {
        assert(b.contains_key(key));
    }
}

/// A merge succeeds exactly when the `mod` keys of both merged sections,
/// `Objs` and `Rails`, all read as `u32`.
pub proof fn law_merge_succeeds_on_valid_keys(base: Byml, diff: Byml)
    requires
        byml_view(base) is StrMap,
        byml_view(diff) is StrMap,
    ensures
        ({
            let b = byml_view(base)->StrMap_0;
            let dm = byml_view(diff)->StrMap_0;
            merge_succeeds(base, diff) <==> forall|key: Seq<char>, s: Seq<char>|
                (key == "Objs"@ || key == "Rails"@) && map_at(dm, key) is Some && array_at(b, key)
                    is Some ==> !#[trigger] bad_mod_key(map_at(dm, key)->Some_0, s)
        }),
{
    let b = byml_view(base)->StrMap_0;
    let dm = byml_view(diff)->StrMap_0;
    if merge_succeeds(base, diff) {
        assert forall|key: Seq<char>, s: Seq<char>|
            (key == "Objs"@ || key == "Rails"@) && map_at(dm, key) is Some && array_at(b, key)
                is Some implies !#[trigger] bad_mod_key(map_at(dm, key)->Some_0, s) by {
            assert(!crate::map_unit::section_has_bad_key(b, dm, "Objs"@, s));
        }
    } else {
        assert(!crate::map_unit::merge_ok(b, dm));
        assert(exists|s: Seq<char>|
            !(!#[trigger] crate::map_unit::section_has_bad_key(b, dm, "Objs"@, s)
                && !crate::map_unit::section_has_bad_key(b, dm, "Rails"@, s)));
        let s = choose|s: Seq<char>|
            !(!#[trigger] crate::map_unit::section_has_bad_key(b, dm, "Objs"@, s)
                && !crate::map_unit::section_has_bad_key(b, dm, "Rails"@, s));
        let key = if crate::map_unit::section_has_bad_key(b, dm, "Objs"@, s) {
            "Objs"@
        } else {
            "Rails"@
        };
        assert(crate::map_unit::section_has_bad_key(b, dm, key, s));
        assert(bad_mod_key(map_at(dm, key)->Some_0, s));
        assert(!(forall|key: Seq<char>, s: Seq<char>|
            (key == "Objs"@ || key == "Rails"@) && map_at(dm, key) is Some && array_at(b, key)
                is Some ==> !#[trigger] bad_mod_key(map_at(dm, key)->Some_0, s)));
    }
}

/// The nearest language: the language itself when offered; else the first
/// offered language with the same language part; else the first English
/// one; else the first offered one.
pub proof fn law_nearest_order(lang: Language, langs: Seq<Language>, i: int)
    ensures
        !langs.contains(lang) && 0 <= i < langs.len() && spec_short(langs[i]) == spec_short(lang)
            && (forall|j: int| 0 <= j < i ==> spec_short(#[trigger] langs[j]) != spec_short(lang))
            ==> spec_nearest(lang, langs) == langs[i],
        !langs.contains(lang) && (forall|j: int|
            0 <= j < langs.len() ==> spec_short(#[trigger] langs[j]) != spec_short(lang)) && 0 <= i
            < langs.len() && spec_short(langs[i]) == seq!['e', 'n'] && (forall|j: int|
            0 <= j < i ==> spec_short(#[trigger] langs[j]) != seq!['e', 'n']) ==> spec_nearest(
            lang,
            langs,
        ) == langs[i],
        !langs.contains(lang) && langs.len() > 0 && (forall|j: int|
            0 <= j < langs.len() ==> spec_short(#[trigger] langs[j]) != spec_short(lang)
                && spec_short(langs[j]) != seq!['e', 'n']) ==> spec_nearest(lang, langs) == langs[0],
{
    if !langs.contains(lang) {
        if 0 <= i < langs.len() && spec_short(langs[i]) == spec_short(lang) && (forall|j: int|
            0 <= j < i ==> spec_short(#[trigger] langs[j]) != spec_short(lang)) {
            lemma_first_with_short(langs, spec_short(lang), i);
        }
        if forall|j: int| 0 <= j < langs.len() ==> spec_short(#[trigger] langs[j]) != spec_short(lang) {
            lemma_first_with_short(langs, spec_short(lang), langs.len() as int);
            if 0 <= i < langs.len() && spec_short(langs[i]) == seq!['e', 'n'] && (forall|j: int|
                0 <= j < i ==> spec_short(#[trigger] langs[j]) != seq!['e', 'n']) {
                lemma_first_with_short(langs, seq!['e', 'n'], i);
            }
            if forall|j: int| 0 <= j < langs.len() ==> spec_short(#[trigger] langs[j]) != seq!['e', 'n'] {
                lemma_first_with_short(langs, seq!['e', 'n'], langs.len() as int);
            }
        }
    }
}

} // verus!
