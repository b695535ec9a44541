use vstd::prelude::*;

use crate::text::{spec_starts_with, starts_with, str_chars, string_from_chars};

verus! {

/// `s` with every `from` character replaced by `to`.
pub open spec fn spec_replace_char(s: Seq<char>, from: char, to: char) -> Seq<char> {
    Seq::new(s.len(), |i: int| if s[i] == from { to } else { s[i] })
}

/// `s` with every leading repetition of `prefix` removed, as
/// `str::trim_start_matches` removes it.
pub open spec fn spec_trim_start_matches(s: Seq<char>, prefix: Seq<char>) -> Seq<char>
    decreases s.len(),
{
    if prefix.len() > 0 && spec_starts_with(s, prefix) {
        spec_trim_start_matches(s.subrange(prefix.len() as int, s.len() as int), prefix)
    } else {
        s
    }
}

/// `s` with every occurrence of `pat` replaced by `rep`, scanning from the
/// left without overlaps, as `str::replace` does for a non-empty pattern.
pub open spec fn spec_replace_all(s: Seq<char>, pat: Seq<char>, rep: Seq<char>) -> Seq<char>
    decreases s.len(),
{
    if s.len() == 0 {
        s
    } else if pat.len() > 0 && spec_starts_with(s, pat) {
        rep + spec_replace_all(s.subrange(pat.len() as int, s.len() as int), pat, rep)
    } else {
        seq![s[0]] + spec_replace_all(s.drop_first(), pat, rep)
    }
}

/// The prefix rewrites of canonical paths, applied in this order: each pair
/// is (prefix, replacement).
pub open spec fn spec_canon_rules() -> Seq<(Seq<char>, Seq<char>)> {
    seq![
        ("Content/"@, ""@),
        ("content/"@, ""@),
        ("atmosphere/titles/"@, ""@),
        ("atmosphere/contents/"@, ""@),
        ("01007EF00011E000/romfs/"@, ""@),
        ("01007ef00011e000/romfs/"@, ""@),
        ("01007EF00011E001/romfs"@, "Aoc/0010"@),
        ("01007EF00011E002/romfs"@, "Aoc/0010"@),
        ("01007EF00011F001/romfs"@, "Aoc/0010"@),
        ("01007EF00011F002/romfs"@, "Aoc/0010"@),
        ("01007ef00011e001/romfs"@, "Aoc/0010"@),
        ("01007ef00011e002/romfs"@, "Aoc/0010"@),
        ("01007ef00011f001/romfs"@, "Aoc/0010"@),
        ("01007ef00011f002/romfs"@, "Aoc/0010"@),
        ("romfs/"@, ""@),
        ("aoc/content"@, "Aoc"@),
        ("aoc"@, "Aoc"@),
    ]
}

/// One rewrite: where `s` begins with the prefix, every leading repetition
/// of it is replaced by one copy of the replacement.
pub open spec fn spec_apply_rule(s: Seq<char>, rule: (Seq<char>, Seq<char>)) -> Seq<char> {
    if spec_starts_with(s, rule.0) {
        rule.1 + spec_trim_start_matches(s, rule.0)
    } else {
        s
    }
}

/// The rewrites of `rules` applied to `s` one after the other.
pub open spec fn spec_apply_rules(s: Seq<char>, rules: Seq<(Seq<char>, Seq<char>)>) -> Seq<char>
    decreases rules.len(),
{
    if rules.len() == 0 {
        s
    } else {
        spec_apply_rule(spec_apply_rules(s, rules.drop_last()), rules.last())
    }
}

/// The canonical form of a resource path: backslashes become slashes, the
/// platform and dump prefixes are rewritten, and every `.s` (the mark of a
/// compressed file) becomes `.`.
pub open spec fn spec_canonicalize(path: Seq<char>) -> Seq<char> {
    spec_replace_all(
        spec_apply_rules(spec_replace_char(path, '\\', '/'), spec_canon_rules()),
        ".s"@,
        "."@,
    )
}

/// The views of a list of (prefix, replacement) pairs.
pub open spec fn rules_view(rules: Seq<(&str, &str)>) -> Seq<(Seq<char>, Seq<char>)> {
    rules.map_values(|r: (&str, &str)| (r.0@, r.1@))
}

fn canon_rules() -> (res: Vec<(&'static str, &'static str)>)
    ensures
        rules_view(res@) == spec_canon_rules(),
{
    let rules = vec![
        ("Content/", ""),
        ("content/", ""),
        ("atmosphere/titles/", ""),
        ("atmosphere/contents/", ""),
        ("01007EF00011E000/romfs/", ""),
        ("01007ef00011e000/romfs/", ""),
        ("01007EF00011E001/romfs", "Aoc/0010"),
        ("01007EF00011E002/romfs", "Aoc/0010"),
        ("01007EF00011F001/romfs", "Aoc/0010"),
        ("01007EF00011F002/romfs", "Aoc/0010"),
        ("01007ef00011e001/romfs", "Aoc/0010"),
        ("01007ef00011e002/romfs", "Aoc/0010"),
        ("01007ef00011f001/romfs", "Aoc/0010"),
        ("01007ef00011f002/romfs", "Aoc/0010"),
        ("romfs/", ""),
        ("aoc/content", "Aoc"),
        ("aoc", "Aoc"),
    ];
    assert(rules_view(rules@) =~= spec_canon_rules());
    rules
}

/// `s` with every `from` character replaced by `to`.
fn replace_char(s: &Vec<char>, from: char, to: char) -> (res: Vec<char>)
    ensures
        res@ == spec_replace_char(s@, from, to),
{
    let mut out: Vec<char> = Vec::new();
    let mut i: usize = 0;
    while i < s.len()
        invariant
            i <= s.len(),
            out@ =~= spec_replace_char(s@.take(i as int), from, to),
        decreases s.len() - i,
    {
        if s[i] == from {
            out.push(to);
        } else {
            out.push(s[i]);
        }
        i = i + 1;
    }
    assert(s@.take(s.len() as int) =~= s@);
    out
}

/// The characters of `s` from position `from` on.
fn tail(s: &Vec<char>, from: usize) -> (res: Vec<char>)
    requires
        from <= s.len(),
    ensures
        res@ == s@.subrange(from as int, s.len() as int),
{
    let mut out: Vec<char> = Vec::new();
    let mut i: usize = from;
    while i < s.len()
        invariant
            from <= i <= s.len(),
            out@ =~= s@.subrange(from as int, i as int),
        decreases s.len() - i,
    {
        out.push(s[i]);
        i = i + 1;
    }
    out
}

/// `a` followed by `b`.
fn concat(a: &Vec<char>, b: &Vec<char>) -> (res: Vec<char>)
    ensures
        res@ == a@ + b@,
{
    let mut out: Vec<char> = Vec::new();
    let mut i: usize = 0;
    while i < a.len()
        invariant
            i <= a.len(),
            out@ =~= a@.take(i as int),
        decreases a.len() - i,
    {
        out.push(a[i]);
        i = i + 1;
    }
    let mut j: usize = 0;
    while j < b.len()
        invariant
            out.len() == a.len() + j,
            j <= b.len(),
            out@ =~= a@ + b@.take(j as int),
        decreases b.len() - j,
    {
        out.push(b[j]);
        j = j + 1;
    }
    out
}

/// `s` with every leading repetition of `prefix` removed.
fn trim_start_matches(s: &Vec<char>, prefix: &Vec<char>) -> (res: Vec<char>)
    ensures
        res@ == spec_trim_start_matches(s@, prefix@),
{
    if prefix.len() == 0 {
        return tail(s, 0);
    }
    let mut cur = tail(s, 0);
    assert(cur@ =~= s@);
    while starts_with(&cur, prefix)
        invariant
            prefix@.len() > 0,
            spec_trim_start_matches(cur@, prefix@) == spec_trim_start_matches(s@, prefix@),
        decreases cur@.len(),
    {
        cur = tail(&cur, prefix.len());
    }
    cur
}

/// `s` with every `pat` replaced by `rep`, left to right.
fn replace_all(s: &Vec<char>, pat: &Vec<char>, rep: &Vec<char>) -> (res: Vec<char>)
    requires
        pat@.len() > 0,
    ensures
        res@ == spec_replace_all(s@, pat@, rep@),
{
    let mut out: Vec<char> = Vec::new();
    let mut cur = tail(s, 0);
    assert(cur@ =~= s@);
    while cur.len() > 0
        invariant
            pat@.len() > 0,
            out@ + spec_replace_all(cur@, pat@, rep@) == spec_replace_all(s@, pat@, rep@),
        decreases cur@.len(),
    {
        if starts_with(&cur, pat) {
            let mut k: usize = 0;
            let ghost before = out@;
            while k < rep.len()
                invariant
                    k <= rep.len(),
                    out@ =~= before + rep@.take(k as int),
                decreases rep.len() - k,
            {
                out.push(rep[k]);
                k = k + 1;
            }
            assert(rep@.take(rep.len() as int) =~= rep@);
            let next = tail(&cur, pat.len());
            assert(out@ + spec_replace_all(next@, pat@, rep@) =~= before + spec_replace_all(
                cur@,
                pat@,
                rep@,
            ));
            cur = next;
        } else {
            let ghost before = out@;
            out.push(cur[0]);
            let next = tail(&cur, 1);
            assert(next@ =~= cur@.drop_first());
            assert(out@ + spec_replace_all(next@, pat@, rep@) =~= before + spec_replace_all(
                cur@,
                pat@,
                rep@,
            ));
            cur = next;
        }
    }
    assert(out@ =~= out@ + spec_replace_all(cur@, pat@, rep@));
    out
}

/// The canonical form of a resource path, as mods and dumps are compared
/// by it: backslashes become slashes, platform and dump prefixes (such as
/// `content/`, `romfs/` or a title id directory) are rewritten, and every
/// `.s` becomes `.` so that compressed and plain names agree.
pub fn canonicalize(path: &str) -> (res: String)
    ensures
        res@ == spec_canonicalize(path@),
{
    let chars = str_chars(path);
    let mut canon = replace_char(&chars, '\\', '/');
    let rules = canon_rules();
    let ghost start = canon@;
    let mut i: usize = 0;
    while i < rules.len()
        invariant
            i <= rules.len(),
            rules_view(rules@) == spec_canon_rules(),
            canon@ == spec_apply_rules(start, rules_view(rules@).take(i as int)),
        decreases rules.len() - i,
    {
        let (k, v) = rules[i];
        let key = str_chars(k);
        let rep = str_chars(v);
        assert(rules_view(rules@).take(i + 1).drop_last() =~= rules_view(rules@).take(i as int));
        assert(rules_view(rules@)[i as int] == (k@, v@));
        if starts_with(&canon, &key) {
            let trimmed = trim_start_matches(&canon, &key);
            canon = concat(&rep, &trimmed);
        }
        i = i + 1;
    }
    assert(rules_view(rules@).take(rules.len() as int) =~= rules_view(rules@));
    let pat = str_chars(".s");
    let dot = str_chars(".");
    proof {
        reveal_strlit(".s");
    }
    let replaced = replace_all(&canon, &pat, &dot);
    string_from_chars(&replaced)
}

} // verus!
