//! The decisions of `update`: which installed skills to update, in what
//! order, and how each one is installed again.
use vstd::prelude::*;

use crate::error::SkillError;
use crate::install;
use crate::sources::github::GitHubSource;
use crate::json;
use crate::json::JsonValue;
use crate::text;

verus! {

/// Whether an installed skill named `n` is to be updated: all of them with
/// `--all`, else the one named.
pub fn selected(all: bool, skill: &Option<String>, n: &str) -> (b: bool)
    ensures
        b == (all || (skill matches Some(s) && s@ == n@)),
{
    if all {
        return true;
    }
    match skill {
        Some(s) => text::chars_eq(&text::chars_of(s.as_str()), &text::chars_of(n)),
        None => false,
    }
}

/// Lexicographic order of texts by character code (the order of `String`).
pub open spec fn lex_lt(a: Seq<char>, b: Seq<char>) -> bool
    decreases a.len(),
{
    if a.len() == 0 {
        b.len() > 0
    } else if b.len() == 0 {
        false
    } else if a[0] != b[0] {
        (a[0] as u32) < (b[0] as u32)
    } else {
        lex_lt(a.drop_first(), b.drop_first())
    }
}

/// Whether `a` sorts before `b`.
pub fn lex_less(a: &Vec<char>, b: &Vec<char>) -> (r: bool)
    ensures
        r == lex_lt(a@, b@),
{
    let mut i: usize = 0;
    assert(a@.skip(0) =~= a@);
    assert(b@.skip(0) =~= b@);
    while i < a.len() && i < b.len() && a[i] == b[i]
        invariant
            i <= a.len(),
            i <= b.len(),
            lex_lt(a@, b@) == lex_lt(a@.skip(i as int), b@.skip(i as int)),
        decreases a.len() - i,
    {
        assert(a@.skip(i as int).drop_first() =~= a@.skip(i + 1));
        assert(b@.skip(i as int).drop_first() =~= b@.skip(i + 1));
        i = i + 1;
    }
    if i == a.len() {
        assert(a@.skip(i as int).len() == 0);
        return i < b.len();
    }
    if i == b.len() {
        assert(b@.skip(i as int).len() == 0);
        return false;
    }
    assert(a@.skip(i as int)[0] == a@[i as int]);
    assert(b@.skip(i as int)[0] == b@[i as int]);
    (a[i] as u32) < (b[i] as u32)
}

/// The names of entries.
pub open spec fn names(es: Seq<(String, JsonValue)>) -> Seq<Seq<char>> {
    es.map_values(|e: (String, JsonValue)| e.0@)
}

/// The number of leading entries whose names sort before `n`.
pub open spec fn insert_pos(es: Seq<(String, JsonValue)>, n: Seq<char>) -> int
    decreases es.len(),
{
    if es.len() == 0 {
        0
    } else if lex_lt(es[0].0@, n) {
        1 + insert_pos(es.drop_first(), n)
    } else {
        0
    }
}

/// `e` placed among sorted entries, unless an entry of that name is
/// already there.
pub open spec fn insert_entry(es: Seq<(String, JsonValue)>, e: (String, JsonValue)) -> Seq<
    (String, JsonValue),
> {
    if names(es).contains(e.0@) {
        es
    } else {
        let p = insert_pos(es, e.0@);
        es.take(p) + seq![e] + es.skip(p)
    }
}

/// The entries sorted by name, keeping the first entry of each name (what
/// a stable sort by name followed by removing repeated names gives).
pub open spec fn sorted_unique(es: Seq<(String, JsonValue)>) -> Seq<(String, JsonValue)>
    decreases es.len(),
{
    if es.len() == 0 {
        seq![]
    } else {
        insert_entry(sorted_unique(es.drop_last()), es.last())
    }
}

/// `lex_lt` is irreflexive.
proof fn lemma_lex_irrefl(a: Seq<char>)
    ensures
        !lex_lt(a, a),
    decreases a.len(),
{
    if a.len() > 0 {
        lemma_lex_irrefl(a.drop_first());
    }
}

/// `lex_lt` is transitive.
proof fn lemma_lex_trans(a: Seq<char>, b: Seq<char>, c: Seq<char>)
    requires
        lex_lt(a, b),
        lex_lt(b, c),
    ensures
        lex_lt(a, c),
    decreases a.len(),
{
    if a.len() > 0 && a[0] == b[0] && b[0] == c[0] {
        lemma_lex_trans(a.drop_first(), b.drop_first(), c.drop_first());
    }
}

/// Two different texts are ordered one way or the other.
proof fn lemma_lex_total(a: Seq<char>, b: Seq<char>)
    requires
        a != b,
    ensures
        lex_lt(a, b) || lex_lt(b, a),
    decreases a.len(),
{
    if a.len() == 0 || b.len() == 0 {
        if a.len() == 0 && b.len() == 0 {
            assert(a =~= b);
        }
    } else if a[0] == b[0] {
        let a1 = a.drop_first();
        let b1 = b.drop_first();
        if a1 =~= b1 {
            assert(a =~= b) by {
                assert forall|i: int| 0 <= i < a.len() implies a[i] == b[i] by {
                    if i > 0 {
                        assert(a[i] == a1[i - 1]);
                        assert(b[i] == b1[i - 1]);
                    }
                }
            }
        }
        lemma_lex_total(a1, b1);
    } else {
        let c: char = a[0];
        let d: char = b[0];
        vstd::utf8::char_u32_cast(c, c as u32);
        vstd::utf8::char_u32_cast(d, d as u32);
    }
}

/// Names in strictly increasing order (so each name at most once).
pub open spec fn strictly_sorted(ns: Seq<Seq<char>>) -> bool {
    forall|i: int, j: int| 0 <= i < j < ns.len() ==> lex_lt(#[trigger] ns[i], #[trigger] ns[j])
}

/// Entry `i` is the first entry of `es` with its name.
pub open spec fn first_of_name(es: Seq<(String, JsonValue)>, i: int) -> bool {
    forall|j: int| 0 <= j < i ==> (#[trigger] es[j]).0@ != es[i].0@
}

/// The entries before `insert_pos` sort before `n`; the one at it does not.
proof fn lemma_insert_pos(es: Seq<(String, JsonValue)>, n: Seq<char>)
    ensures
        0 <= insert_pos(es, n) <= es.len(),
        forall|i: int| 0 <= i < insert_pos(es, n) ==> lex_lt(#[trigger] es[i].0@, n),
        insert_pos(es, n) < es.len() ==> !lex_lt(es[insert_pos(es, n)].0@, n),
    decreases es.len(),
{
    if es.len() > 0 && lex_lt(es[0].0@, n) {
        let rest = es.drop_first();
        lemma_insert_pos(rest, n);
        assert forall|i: int| 0 <= i < insert_pos(es, n) implies lex_lt(#[trigger] es[i].0@, n) by {
            if i > 0 {
                assert(es[i] == rest[i - 1]);
            }
        }
        if insert_pos(es, n) < es.len() {
            assert(es[insert_pos(es, n)] == rest[insert_pos(rest, n)]);
        }
    }
}

/// Inserting an entry keeps the names strictly sorted, adds its name, and
/// adds nothing else.
proof fn lemma_insert_entry(es: Seq<(String, JsonValue)>, e: (String, JsonValue))
    requires
        strictly_sorted(names(es)),
    ensures
        strictly_sorted(names(insert_entry(es, e))),
        forall|m: Seq<char>|
            #[trigger] names(insert_entry(es, e)).contains(m) <==> (names(es).contains(m) || m
                == e.0@),
        !names(es).contains(e.0@) ==> insert_entry(es, e) == es.take(insert_pos(es, e.0@))
            + seq![e] + es.skip(insert_pos(es, e.0@)),
        names(es).contains(e.0@) ==> insert_entry(es, e) == es,
{
    let n = e.0@;
    let ns = names(es);
    if !ns.contains(n) {
        lemma_insert_pos(es, n);
        let p = insert_pos(es, n);
        let r = insert_entry(es, e);
        let rn = names(r);
        assert(r.len() == es.len() + 1);
        assert forall|k: int| 0 <= k < rn.len() implies #[trigger] rn[k] == (if k < p {
            ns[k]
        } else if k == p {
            n
        } else {
            ns[k - 1]
        }) by {
            if k < p {
                assert(r[k] == es[k]);
            } else if k > p {
                assert(r[k] == es[k - 1]);
            }
        }
        // Every name from `p` on sorts after `n`.
        assert forall|k: int| p <= k < ns.len() implies lex_lt(n, #[trigger] ns[k]) by {
            assert(ns[p] != n) by {
                assert(ns[p] == es[p].0@);
            }
            assert(ns[p] == es[p].0@);
            lemma_lex_total(ns[p], n);
            if k > p {
                lemma_lex_trans(n, ns[p], ns[k]);
            }
        }
        assert forall|i: int, j: int| 0 <= i < j < rn.len() implies lex_lt(
            #[trigger] rn[i],
            #[trigger] rn[j],
        ) by {
            if j < p {
            } else if j == p {
                assert(ns[i] == es[i].0@);
            } else if i < p {
                assert(ns[i] == es[i].0@);
                lemma_lex_trans(ns[i], n, ns[j - 1]);
            } else if i == p {
            } else {
            }
        }
        assert forall|m: Seq<char>| #[trigger] rn.contains(m) <==> (ns.contains(m) || m == n) by {
            if rn.contains(m) {
                let k = choose|k: int| 0 <= k < rn.len() && rn[k] == m;
                if k < p {
                    assert(ns[k] == m);
                } else if k > p {
                    assert(ns[k - 1] == m);
                }
            }
            if ns.contains(m) {
                let k = choose|k: int| 0 <= k < ns.len() && ns[k] == m;
                if k < p {
                    assert(rn[k] == m);
                } else {
                    assert(rn[k + 1] == m);
                }
            }
            if m == n {
                assert(rn[p] == m);
            }
        }
    }
}

/// `sorted_unique` gives the entries in strictly increasing order of name,
/// with the same names as the input, each being the first entry of the
/// input with that name.
pub proof fn lemma_sorted_unique(es: Seq<(String, JsonValue)>)
    ensures
        strictly_sorted(names(sorted_unique(es))),
        forall|m: Seq<char>| #[trigger] names(sorted_unique(es)).contains(m) <==> names(es).contains(m),
        forall|k: int|
            0 <= k < sorted_unique(es).len() ==> exists|i: int|
                0 <= i < es.len() && #[trigger] sorted_unique(es)[k] == es[i] && first_of_name(es, i),
    decreases es.len(),
{
    if es.len() > 0 {
        let init = es.drop_last();
        let x = es.last();
        let prev = sorted_unique(init);
        lemma_sorted_unique(init);
        lemma_insert_entry(prev, x);
        let out = sorted_unique(es);
        assert(out == insert_entry(prev, x));
        assert forall|m: Seq<char>| #[trigger] names(init).contains(m) || m == x.0@ <==> names(
            es,
        ).contains(m) by {
            if names(init).contains(m) {
                let k = choose|k: int| 0 <= k < names(init).len() && names(init)[k] == m;
                assert(names(es)[k] == m);
            }
            if m == x.0@ {
                assert(names(es)[es.len() - 1] == m);
            }
            if names(es).contains(m) {
                let k = choose|k: int| 0 <= k < names(es).len() && names(es)[k] == m;
                if k < es.len() - 1 {
                    assert(names(init)[k] == m);
                }
            }
        }
        assert forall|m: Seq<char>| #[trigger] names(out).contains(m) <==> names(es).contains(m) by {
            assert(names(out).contains(m) <==> (names(prev).contains(m) || m == x.0@));
            assert(names(prev).contains(m) <==> names(init).contains(m));
            assert(names(init).contains(m) || m == x.0@ <==> names(es).contains(m));
        }
        // Entries of `init` are entries of `es` at the same place.
        assert forall|i: int| 0 <= i < init.len() && first_of_name(init, i) implies first_of_name(
            es,
            i,
        ) by {
            assert forall|j: int| 0 <= j < i implies (#[trigger] es[j]).0@ != es[i].0@ by {
                assert(init[j] == es[j]);
                assert(init[i] == es[i]);
            }
        }
        let p = insert_pos(prev, x.0@);
        lemma_insert_pos(prev, x.0@);
        assert forall|k: int| 0 <= k < out.len() implies exists|i: int|
            0 <= i < es.len() && #[trigger] out[k] == es[i] && first_of_name(es, i) by {
            if names(prev).contains(x.0@) {
                let i = choose|i: int|
                    0 <= i < init.len() && #[trigger] prev[k] == init[i] && first_of_name(init, i);
                assert(out[k] == es[i]);
            } else if k < p {
                assert(out[k] == prev[k]);
                let i = choose|i: int|
                    0 <= i < init.len() && #[trigger] prev[k] == init[i] && first_of_name(init, i);
                assert(out[k] == es[i]);
            } else if k > p {
                assert(out[k] == prev[k - 1]);
                let i = choose|i: int|
                    0 <= i < init.len() && #[trigger] prev[k - 1] == init[i] && first_of_name(
                        init,
                        i,
                    );
                assert(out[k] == es[i]);
            } else {
                let i = es.len() - 1;
                assert(out[k] == x);
                assert forall|j: int| 0 <= j < i implies (#[trigger] es[j]).0@ != es[i].0@ by {
                    assert(names(init)[j] == es[j].0@);
                    if es[j].0@ == x.0@ {
                        assert(names(init).contains(x.0@));
                    }
                }
                assert(first_of_name(es, i));
            }
        }
    }
}

/// Sorts installed skills by name and keeps the first of each name (see
/// `sorted_unique`).
pub fn sort_unique_by_name(entries: Vec<(String, JsonValue)>) -> (out: Vec<(String, JsonValue)>)
    ensures
        out@ == sorted_unique(entries@),
{
    let ghost all = entries@;
    let mut rest = entries;
    let mut pending: Vec<(String, JsonValue)> = Vec::new();
    // Reverse, so that entries can be taken from the end in their order.
    assert(all =~= rest@ + pending@.reverse());
    while rest.len() > 0
        invariant
            all == rest@ + pending@.reverse(),
        decreases rest.len(),
    {
        let ghost r0 = rest@;
        let ghost p0 = pending@;
        let x = rest.pop().unwrap();
        pending.push(x);
        assert(pending@.reverse() =~= seq![x] + p0.reverse());
        assert(r0 =~= rest@.push(x));
        assert(all =~= rest@ + pending@.reverse());
    }
    let mut out: Vec<(String, JsonValue)> = Vec::new();
    let mut k: usize = 0;
    let n = pending.len();
    assert(all.take(0) =~= Seq::<(String, JsonValue)>::empty());
    assert(all.skip(0) =~= all);
    while pending.len() > 0
        invariant
            k + pending@.len() == all.len(),
            all.len() == n,
            pending@.reverse() == all.skip(k as int),
            out@ == sorted_unique(all.take(k as int)),
        decreases pending.len(),
    {
        let ghost p0 = pending@;
        let x = pending.pop().unwrap();
        assert(p0.reverse()[0] == x);
        assert(x == all[k as int]);
        assert(pending@.reverse() =~= p0.reverse().drop_first());
        assert(all.skip(k as int).drop_first() =~= all.skip(k + 1));
        assert(all.take(k + 1).drop_last() =~= all.take(k as int));
        assert(all.take(k + 1).last() == x);
        let xn = text::chars_of(x.0.as_str());
        // Is the name already there, and where does it go?
        let mut present = false;
        let mut j: usize = 0;
        let ghost o = out@;
        while j < out.len() && !present
            invariant
                j <= out.len(),
                o == out@,
                xn@ == x.0@,
                present ==> names(o).contains(x.0@),
                !present ==> forall|m: int| 0 <= m < j ==> names(o)[m] != x.0@,
            decreases out.len() - j + (if present {
                0int
            } else {
                1
            }),
        {
            let on = text::chars_of(out[j].0.as_str());
            assert(names(o)[j as int] == out@[j as int].0@);
            if text::chars_eq(&on, &xn) {
                present = true;
            } else {
                j = j + 1;
            }
        }
        if !present {
            assert(!names(o).contains(x.0@)) by {
                if names(o).contains(x.0@) {
                    let m = choose|m: int| 0 <= m < names(o).len() && names(o)[m] == x.0@;
                    assert(names(o)[m] != x.0@);
                }
            }
            let mut p: usize = 0;
            assert(o.skip(0) =~= o);
            while p < out.len() && lex_less(&text::chars_of(out[p].0.as_str()), &xn)
                invariant
                    p <= out.len(),
                    o == out@,
                    xn@ == x.0@,
                    insert_pos(o, x.0@) == p + insert_pos(o.skip(p as int), x.0@),
                decreases out.len() - p,
            {
                assert(o.skip(p as int)[0] == o[p as int]);
                assert(o.skip(p as int).drop_first() =~= o.skip(p + 1));
                p = p + 1;
            }
            if p < out.len() {
                assert(o.skip(p as int)[0] == o[p as int]);
            }
            out.insert(p, x);
            assert(out@ =~= o.take(p as int) + seq![x] + o.skip(p as int));
        }
        k = k + 1;
    }
    assert(all.take(k as int) =~= all);
    out
}

/// How one installed skill is installed again.
pub struct UpdateStep {
    /// What to install: the repository address of a GitHub skill, else
    /// the skill's name.
    pub skill: String,
    pub ref_name: Option<String>,
    pub subdir: Option<String>,
    /// The name to install a GitHub skill under.
    pub as_name: Option<String>,
}

/// How installed skill `name`, recorded as coming from `source`, is
/// updated, as (what to install, ref, subdirectory, name to install
/// under); `None` when a GitHub record has no `url`. A GitHub skill is
/// installed again from the `url` of its record, with the `--ref` given or
/// else the recorded `ref`, the recorded `subdir`, under its name; any other
/// skill is installed again by name with the `--ref` given.
pub open spec fn spec_update_step(
    name: Seq<char>,
    source: JsonValue,
    given_ref: Option<Seq<char>>,
) -> Option<(Seq<char>, Option<Seq<char>>, Option<Seq<char>>, Option<Seq<char>>)> {
    if json::get_str(source, "type"@) == Some("github"@) {
        match json::get_str(source, "url"@) {
            None => None,
            Some(u) => Some(
                (
                    u,
                    json::or_else(given_ref, json::get_str(source, "ref"@)),
                    json::get_str(source, "subdir"@),
                    Some(name),
                ),
            ),
        }
    } else {
        Some((name, given_ref, None, None))
    }
}

/// How installed skill `name`, recorded as coming from `source`, is
/// updated (see `spec_update_step`); the missing-url error for a GitHub
/// record without `url`.
pub fn update_step(name: &str, source: &JsonValue, ref_name: Option<String>) -> (r: Result<
    UpdateStep,
    SkillError,
>)
    ensures
        match spec_update_step(name@, *source, text::opt_view(ref_name)) {
            None => r matches Err(SkillError::MissingGitHubUrl(n)) && n@ == name@,
            Some((skill, rf, sd, an)) => r matches Ok(st) && st.skill@ == skill
                && text::opt_view(st.ref_name) == rf && text::opt_view(st.subdir) == sd
                && text::opt_view(st.as_name) == an,
        },
{
    let is_github = match json::get_str_exec(source, "type") {
        Some(t) => text::chars_eq(&text::chars_of(t), &text::chars_of("github")),
        None => false,
    };
    if is_github {
        let url = match json::get_str_exec(source, "url") {
            Some(u) => text::owned(u),
            None => {
                return Err(SkillError::MissingGitHubUrl(text::owned(name)));
            },
        };
        let subdir = match json::get_str_exec(source, "subdir") {
            Some(s) => Some(text::owned(s)),
            None => None,
        };
        let r = match ref_name {
            Some(x) => Some(x),
            None => match json::get_str_exec(source, "ref") {
                Some(s) => Some(text::owned(s)),
                None => None,
            },
        };
        Ok(UpdateStep { skill: url, ref_name: r, subdir, as_name: Some(text::owned(name)) })
    } else {
        Ok(UpdateStep { skill: text::owned(name), ref_name, subdir: None, as_name: None })
    }
}

/// A skill installed from GitHub is updated from what its record keeps:
/// the repository's address, the `--ref` given or else the recorded ref,
/// the recorded subdirectory, under its own name.
pub proof fn lemma_update_github_record(
    name: Seq<char>,
    src: JsonValue,
    gh: GitHubSource,
    commit: Seq<char>,
    description: Option<Seq<char>>,
    given_ref: Option<Seq<char>>,
)
    requires
        install::github_source_record(src, gh, commit, description),
    ensures
        spec_update_step(name, src, given_ref) == Some(
            (
                gh.url@,
                Some(
                    match given_ref {
                        Some(r) => r,
                        None => gh.git_ref@,
                    },
                ),
                text::opt_view(gh.subdir),
                Some(name),
            ),
        ),
{
}

/// A skill installed from a store (of any type but `github`) is updated by
/// installing it again by name, with the `--ref` given.
pub proof fn lemma_update_store_record(
    name: Seq<char>,
    src: JsonValue,
    store_type: Seq<char>,
    given_ref: Option<Seq<char>>,
)
    requires
        install::keys(src) == seq!["type"@, "description"@],
        install::is_str(json::json_get(src, "type"@), store_type),
        store_type != "github"@,
    ensures
        spec_update_step(name, src, given_ref) == Some(
            (name, given_ref, None::<Seq<char>>, None::<Seq<char>>),
        ),
{
}

} // verus!
