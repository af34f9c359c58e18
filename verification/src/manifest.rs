//! `SKILL.md` manifests: the `name` and `description` of a skill, read from
//! the frontmatter block at the top of the file.
use vstd::prelude::*;

use crate::error::SkillError;
use crate::text;
use crate::text::CharClass;

verus! {

/// What a skill's `SKILL.md` says about it.
#[derive(Debug)]
pub struct SkillManifest {
    pub name: String,
    pub description: Option<String>,
}

// ---------------------------------------------------------------------------
// Spec
// ---------------------------------------------------------------------------

/// Every `\r\n` replaced by `\n`, left to right (`str::replace("\r\n", "\n")`).
pub open spec fn replace_crlf(s: Seq<char>) -> Seq<char>
    decreases s.len(),
{
    if s.len() == 0 {
        seq![]
    } else if s.len() >= 2 && s[0] == '\r' && s[1] == '\n' {
        seq!['\n'] + replace_crlf(s.skip(2))
    } else {
        seq![s[0]] + replace_crlf(s.drop_first())
    }
}

/// Every `\r` replaced by `\n`.
pub open spec fn replace_cr(s: Seq<char>) -> Seq<char> {
    s.map_values(|c: char| if c == '\r' { '\n' } else { c })
}

/// Leading byte-order marks removed, then line endings made `\n`.
pub open spec fn normalize(s: Seq<char>) -> Seq<char> {
    replace_cr(replace_crlf(text::strip_start(s, CharClass::Exactly('\u{feff}'))))
}

/// `str::lines` of a text without `\r`: the pieces between `\n`s, where a
/// final `\n` ends the last line instead of starting an empty one.
pub open spec fn lines(s: Seq<char>) -> Seq<Seq<char>> {
    let pieces = text::split(s, CharClass::Exactly('\n'));
    if s.len() == 0 {
        seq![]
    } else if s.last() == '\n' {
        pieces.drop_last()
    } else {
        pieces
    }
}

/// Index of the first line that is `---` once trimmed, or `ls.len()`.
pub open spec fn first_fence(ls: Seq<Seq<char>>) -> int
    decreases ls.len(),
{
    if ls.len() == 0 {
        0
    } else if text::trim(ls[0]) == "---"@ {
        0
    } else {
        1 + first_fence(ls.drop_first())
    }
}

/// The lines, each followed by `\n`.
pub open spec fn terminated(ls: Seq<Seq<char>>) -> Seq<char> {
    ls.map_values(|l: Seq<char>| l.push('\n')).flatten()
}

/// The frontmatter of a normalized text: when its first line is `---`, the
/// lines after it up to (not including) the next `---` line.
pub open spec fn spec_extract_frontmatter(content: Seq<char>) -> Option<Seq<char>> {
    let ls = lines(content);
    if ls.len() == 0 || text::trim(ls[0]) != "---"@ {
        None
    } else {
        let nl = text::first_in(content, CharClass::Exactly('\n'));
        if nl >= content.len() {
            None
        } else {
            let rest = lines(content.skip(nl + 1));
            let idx = first_fence(rest);
            if idx >= rest.len() {
                None
            } else {
                Some(terminated(rest.take(idx)))
            }
        }
    }
}

/// The `key: value` of one frontmatter line: key and value trimmed, and
/// the value stripped of surrounding `"` and then `'` quotes. Blank lines,
/// `#` comments and lines without `:` have none.
pub open spec fn line_field(line: Seq<char>) -> Option<(Seq<char>, Seq<char>)> {
    let l = text::trim(line);
    if l.len() == 0 || l[0] == '#' {
        None
    } else {
        match text::split_once(l, CharClass::Exactly(':')) {
            None => None,
            Some((k, v)) => Some(
                (
                    text::trim(k),
                    text::strip(
                        text::strip(text::trim(v), CharClass::Exactly('"')),
                        CharClass::Exactly('\''),
                    ),
                ),
            ),
        }
    }
}

/// The nonempty value of the last line that sets `key`.
pub open spec fn last_value(ls: Seq<Seq<char>>, key: Seq<char>) -> Option<Seq<char>>
    decreases ls.len(),
{
    if ls.len() == 0 {
        None
    } else {
        match line_field(ls.last()) {
            Some((k, v)) if k == key && v.len() > 0 => Some(v),
            _ => last_value(ls.drop_last(), key),
        }
    }
}

/// What `parse_skill_md` reads from a `SKILL.md`: the name and the
/// description, or the error.
pub open spec fn spec_parse_skill_md(content: Seq<char>) -> Result<
    (Seq<char>, Option<Seq<char>>),
    SkillError,
> {
    match spec_extract_frontmatter(normalize(content)) {
        None => Err(SkillError::MissingFrontmatter),
        Some(fm) => {
            let ls = lines(fm);
            match last_value(ls, "name"@) {
                None => Err(SkillError::MissingName),
                Some(n) => Ok((n, last_value(ls, "description"@))),
            }
        },
    }
}

// ---------------------------------------------------------------------------
// Lemmas
// ---------------------------------------------------------------------------

/// The lines of `terminated(ls)` are `ls` when no line holds a `\n`.
pub proof fn lemma_lines_terminated(ls: Seq<Seq<char>>)
    requires
        forall|i: int| 0 <= i < ls.len() ==> !(#[trigger] ls[i]).contains('\n'),
    ensures
        lines(terminated(ls)) == ls,
{
    lemma_split_terminated(ls);
    let t = terminated(ls);
    if ls.len() > 0 {
        lemma_terminated_cons(ls);
        let tail = terminated(ls.drop_first());
        lemma_terminated_last(ls);
        assert(text::split(t, CharClass::Exactly('\n')).drop_last() =~= ls);
    } else {
        assert(ls.map_values(|l: Seq<char>| l.push('\n')) =~= Seq::<Seq<char>>::empty());
    }
}

/// `terminated` unfolds at the front.
proof fn lemma_terminated_cons(ls: Seq<Seq<char>>)
    requires
        ls.len() > 0,
    ensures
        terminated(ls) == ls[0] + seq!['\n'] + terminated(ls.drop_first()),
{
    let f = |l: Seq<char>| l.push('\n');
    let m = ls.map_values(f);
    assert(m.drop_first() =~= ls.drop_first().map_values(f));
    assert(m.first() == ls[0].push('\n'));
    assert(ls[0].push('\n') =~= ls[0] + seq!['\n']);
}

/// A nonempty `terminated` text ends with `\n`.
proof fn lemma_terminated_last(ls: Seq<Seq<char>>)
    requires
        ls.len() > 0,
    ensures
        terminated(ls).len() > 0,
        terminated(ls).last() == '\n',
    decreases ls.len(),
{
    lemma_terminated_cons(ls);
    if ls.len() > 1 {
        lemma_terminated_last(ls.drop_first());
    } else {
        assert(ls.drop_first().map_values(|l: Seq<char>| l.push('\n')) =~= Seq::<
            Seq<char>,
        >::empty());
    }
}

/// Splitting `terminated(ls)` at `\n` gives `ls` and one empty piece.
proof fn lemma_split_terminated(ls: Seq<Seq<char>>)
    requires
        forall|i: int| 0 <= i < ls.len() ==> !(#[trigger] ls[i]).contains('\n'),
    ensures
        text::split(terminated(ls), CharClass::Exactly('\n')) == ls.push(seq![]),
    decreases ls.len(),
{
    if ls.len() == 0 {
        assert(ls.map_values(|l: Seq<char>| l.push('\n')) =~= Seq::<Seq<char>>::empty());
        assert(text::split(Seq::<char>::empty(), CharClass::Exactly('\n')) =~= seq![
            Seq::<char>::empty(),
        ]);
        assert(ls.push(seq![]) =~= seq![Seq::<char>::empty()]);
    } else {
        lemma_terminated_cons(ls);
        assert(!ls[0].contains('\n'));
        assert forall|i: int| 0 <= i < ls.drop_first().len() implies !(
        #[trigger] ls.drop_first()[i]).contains('\n') by {
            assert(ls.drop_first()[i] == ls[i + 1]);
        }
        lemma_split_terminated(ls.drop_first());
        text::lemma_split_cons(ls[0], '\n', terminated(ls.drop_first()));
        assert(seq![ls[0]] + ls.drop_first().push(seq![]) =~= ls.push(seq![]));
    }
}

/// A normalized text has no `\r`.
pub proof fn lemma_normalize_no_cr(s: Seq<char>)
    ensures
        !normalize(s).contains('\r'),
{
    let n = normalize(s);
    if n.contains('\r') {
        let k = choose|k: int| 0 <= k < n.len() && n[k] == '\r';
        assert(n[k] != '\r');
    }
}

/// `s` with every `\n` written as `\r\n` (a file saved with Windows line
/// endings).
pub open spec fn crlf_endings(s: Seq<char>) -> Seq<char>
    decreases s.len(),
{
    if s.len() == 0 {
        seq![]
    } else if s[0] == '\n' {
        seq!['\r', '\n'] + crlf_endings(s.drop_first())
    } else {
        seq![s[0]] + crlf_endings(s.drop_first())
    }
}

/// A text without `\r` is its own `replace_crlf` and `replace_cr`.
proof fn lemma_replace_without_cr(s: Seq<char>)
    requires
        !s.contains('\r'),
    ensures
        replace_crlf(s) == s,
        replace_cr(s) == s,
    decreases s.len(),
{
    if s.len() > 0 {
        assert(s[0] != '\r');
        assert(!s.drop_first().contains('\r')) by {
            if s.drop_first().contains('\r') {
                let k = choose|k: int| 0 <= k < s.drop_first().len() && s.drop_first()[k] == '\r';
                assert(s[k + 1] == '\r');
            }
        }
        lemma_replace_without_cr(s.drop_first());
        assert(seq![s[0]] + s.drop_first() =~= s);
    }
    assert forall|i: int| 0 <= i < s.len() implies replace_cr(s)[i] == s[i] by {
        assert(s[i] != '\r');
    }
    assert(replace_cr(s) =~= s);
}

/// `replace_crlf` undoes `crlf_endings` on a text without `\r`.
proof fn lemma_replace_crlf_endings(s: Seq<char>)
    requires
        !s.contains('\r'),
    ensures
        replace_crlf(crlf_endings(s)) == s,
    decreases s.len(),
{
    if s.len() > 0 {
        let t = s.drop_first();
        assert(!t.contains('\r')) by {
            if t.contains('\r') {
                let k = choose|k: int| 0 <= k < t.len() && t[k] == '\r';
                assert(s[k + 1] == '\r');
            }
        }
        lemma_replace_crlf_endings(t);
        let c = crlf_endings(s);
        if s[0] == '\n' {
            assert(c.skip(2) =~= crlf_endings(t));
        } else {
            assert(s[0] != '\r');
            assert(c.drop_first() =~= crlf_endings(t));
        }
        assert(seq![s[0]] + t =~= s);
    }
}

/// Byte-order marks come off the same way with either line endings.
proof fn lemma_strip_bom_crlf(s: Seq<char>)
    ensures
        text::strip_start(crlf_endings(s), CharClass::Exactly('\u{feff}')) == crlf_endings(
            text::strip_start(s, CharClass::Exactly('\u{feff}')),
        ),
        !s.contains('\r') ==> !text::strip_start(s, CharClass::Exactly('\u{feff}')).contains('\r'),
    decreases s.len(),
{
    let bom = CharClass::Exactly('\u{feff}');
    if s.len() > 0 && s[0] == '\u{feff}' {
        let t = s.drop_first();
        lemma_strip_bom_crlf(t);
        assert(crlf_endings(s).drop_first() =~= crlf_endings(t));
        if !s.contains('\r') {
            assert(!t.contains('\r')) by {
                if t.contains('\r') {
                    let k = choose|k: int| 0 <= k < t.len() && t[k] == '\r';
                    assert(s[k + 1] == '\r');
                }
            }
        }
    }
}

/// What is left after stripping byte-order marks does not start with one.
proof fn lemma_strip_bom_first(s: Seq<char>)
    ensures
        text::strip_start(s, CharClass::Exactly('\u{feff}')).len() > 0 ==> text::strip_start(
            s,
            CharClass::Exactly('\u{feff}'),
        )[0] != '\u{feff}',
    decreases s.len(),
{
    if s.len() > 0 && s[0] == '\u{feff}' {
        lemma_strip_bom_first(s.drop_first());
    }
}

/// Normalized text has no `\r` and does not start with a byte-order mark,
/// so normalizing it again changes nothing.
pub proof fn lemma_normalize_idempotent(s: Seq<char>)
    ensures
        !normalize(s).contains('\r'),
        normalize(s).len() > 0 ==> normalize(s)[0] != '\u{feff}',
        normalize(normalize(s)) == normalize(s),
{
    let bom = CharClass::Exactly('\u{feff}');
    let ss = text::strip_start(s, bom);
    let r = replace_crlf(ss);
    let n = normalize(s);
    lemma_normalize_no_cr(s);
    lemma_strip_bom_first(s);
    if ss.len() > 0 {
        assert(r[0] == '\n' || r[0] == ss[0]);
        assert(n[0] == '\n' || n[0] == r[0]);
    }
    if n.len() > 0 {
        assert(ss.len() > 0);
    }
    assert(text::strip_start(n, bom) == n);
    lemma_replace_without_cr(n);
}

/// `terminated` of two runs of lines is the two `terminated` texts.
proof fn lemma_terminated_concat(a: Seq<Seq<char>>, b: Seq<Seq<char>>)
    ensures
        terminated(a + b) == terminated(a) + terminated(b),
{
    let f = |l: Seq<char>| l.push('\n');
    assert((a + b).map_values(f) =~= a.map_values(f) + b.map_values(f));
    vstd::seq_lib::lemma_flatten_concat(a.map_values(f), b.map_values(f));
}

/// Lines without `\r` give a `terminated` text without `\r`.
proof fn lemma_terminated_no_cr(ls: Seq<Seq<char>>)
    requires
        forall|i: int| 0 <= i < ls.len() ==> !(#[trigger] ls[i]).contains('\r'),
    ensures
        !terminated(ls).contains('\r'),
    decreases ls.len(),
{
    if ls.len() == 0 {
        assert(ls.map_values(|l: Seq<char>| l.push('\n')) =~= Seq::<Seq<char>>::empty());
    } else {
        let rest = ls.drop_first();
        assert forall|i: int| 0 <= i < rest.len() implies !(#[trigger] rest[i]).contains('\r') by {
            assert(rest[i] == ls[i + 1]);
        }
        lemma_terminated_no_cr(rest);
        lemma_terminated_cons(ls);
        let t = terminated(ls);
        let tr = terminated(rest);
        assert(!ls[0].contains('\r'));
        if t.contains('\r') {
            let k = choose|k: int| 0 <= k < t.len() && t[k] == '\r';
            if k < ls[0].len() {
                assert(ls[0][k] == '\r');
            } else if k > ls[0].len() {
                assert(tr[k - ls[0].len() - 1] == '\r');
            }
        }
    }
}

/// `replace_crlf` leaves a front part without `\r` as it is.
proof fn lemma_replace_crlf_prefix(a: Seq<char>, b: Seq<char>)
    requires
        !a.contains('\r'),
    ensures
        replace_crlf(a + b) == a + replace_crlf(b),
    decreases a.len(),
{
    if a.len() == 0 {
        assert(a + b =~= b);
    } else {
        let t = a.drop_first();
        assert(!t.contains('\r')) by {
            if t.contains('\r') {
                let k = choose|k: int| 0 <= k < t.len() && t[k] == '\r';
                assert(a[k + 1] == '\r');
            }
        }
        assert(a[0] != '\r');
        assert((a + b)[0] == a[0]);
        assert((a + b).drop_first() =~= t + b);
        lemma_replace_crlf_prefix(t, b);
        assert(seq![a[0]] + (t + replace_crlf(b)) =~= a + replace_crlf(b));
    }
}

/// Splitting at `\n` a text that starts with terminated lines gives those
/// lines, then the pieces of the rest.
proof fn lemma_split_terminated_append(ls: Seq<Seq<char>>, z: Seq<char>)
    requires
        forall|i: int| 0 <= i < ls.len() ==> !(#[trigger] ls[i]).contains('\n'),
    ensures
        text::split(terminated(ls) + z, CharClass::Exactly('\n')) == ls + text::split(
            z,
            CharClass::Exactly('\n'),
        ),
    decreases ls.len(),
{
    if ls.len() == 0 {
        assert(ls.map_values(|l: Seq<char>| l.push('\n')) =~= Seq::<Seq<char>>::empty());
        assert(terminated(ls) + z =~= z);
        assert(ls + text::split(z, CharClass::Exactly('\n')) =~= text::split(
            z,
            CharClass::Exactly('\n'),
        ));
    } else {
        let rest = ls.drop_first();
        assert forall|i: int| 0 <= i < rest.len() implies !(#[trigger] rest[i]).contains('\n') by {
            assert(rest[i] == ls[i + 1]);
        }
        lemma_split_terminated_append(rest, z);
        lemma_terminated_cons(ls);
        assert(terminated(ls) + z =~= ls[0] + seq!['\n'] + (terminated(rest) + z));
        assert(!ls[0].contains('\n'));
        text::lemma_split_cons(ls[0], '\n', terminated(rest) + z);
        assert(seq![ls[0]] + (rest + text::split(z, CharClass::Exactly('\n'))) =~= ls
            + text::split(z, CharClass::Exactly('\n')));
    }
}

/// The lines of a text that starts with terminated lines are those lines,
/// then the lines of the rest.
proof fn lemma_lines_append(ls: Seq<Seq<char>>, z: Seq<char>)
    requires
        forall|i: int| 0 <= i < ls.len() ==> !(#[trigger] ls[i]).contains('\n'),
    ensures
        lines(terminated(ls) + z) == ls + lines(z),
{
    let nl = CharClass::Exactly('\n');
    let s = terminated(ls) + z;
    lemma_split_terminated_append(ls, z);
    text::lemma_split_pieces(z, nl);
    if ls.len() > 0 {
        lemma_terminated_last(ls);
    } else {
        assert(ls.map_values(|l: Seq<char>| l.push('\n')) =~= Seq::<Seq<char>>::empty());
    }
    if z.len() == 0 {
        text::lemma_first_in_none(z, nl);
        assert(text::split(z, nl) =~= seq![z]);
        assert(s =~= terminated(ls));
        if ls.len() > 0 {
            assert(s.last() == '\n');
            assert((ls + seq![z]).drop_last() =~= ls);
        }
        assert(ls + lines(z) =~= ls);
    } else {
        assert(s.last() == z.last());
        if z.last() == '\n' {
            assert((ls + text::split(z, nl)).drop_last() =~= ls + text::split(z, nl).drop_last());
        }
    }
}

/// The index of the first fence skips lines that are not fences.
proof fn lemma_first_fence_after(a: Seq<Seq<char>>, b: Seq<Seq<char>>)
    requires
        forall|i: int| 0 <= i < a.len() ==> text::trim(#[trigger] a[i]) != "---"@,
    ensures
        first_fence(a + b) == a.len() + first_fence(b),
    decreases a.len(),
{
    if a.len() == 0 {
        assert(a + b =~= b);
    } else {
        let rest = a.drop_first();
        assert forall|i: int| 0 <= i < rest.len() implies text::trim(#[trigger] rest[i]) != "---"@ by {
            assert(rest[i] == a[i + 1]);
        }
        lemma_first_fence_after(rest, b);
        assert((a + b)[0] == a[0]);
        assert((a + b).drop_first() =~= rest + b);
    }
}

/// `---` is a fence line.
proof fn lemma_fence_line()
    ensures
        text::trim("---"@) == "---"@,
        "---"@.len() == 3,
        "---"@[0] == '-',
        !"---"@.contains('\n'),
        !"---"@.contains('\r'),
{
    reveal_strlit("---");
    let f = "---"@;
    assert(f =~= seq!['-', '-', '-']);
    assert(text::strip_start(f, CharClass::Whitespace) == f);
    assert(text::strip_end(f, CharClass::Whitespace) == f);
}

/// The frontmatter of `---`, the lines `fm`, `---` and then any body is
/// the lines `fm`.
proof fn lemma_fenced_frontmatter(fm: Seq<Seq<char>>, body: Seq<char>)
    requires
        forall|i: int|
            0 <= i < fm.len() ==> !(#[trigger] fm[i]).contains('\n') && !fm[i].contains('\r')
                && text::trim(fm[i]) != "---"@,
    ensures
        spec_extract_frontmatter(
            normalize(terminated(seq!["---"@] + fm + seq!["---"@]) + body),
        ) == Some(terminated(fm)),
{
    let fence = "---"@;
    lemma_fence_line();
    let x1 = fm + seq![fence];
    let x = seq![fence] + x1;
    assert(seq![fence] + fm + seq![fence] =~= x);
    assert forall|i: int| 0 <= i < x.len() implies !(#[trigger] x[i]).contains('\n') && !x[
        i
    ].contains('\r') by {
        if i > 0 && i < x.len() - 1 {
            assert(x[i] == fm[i - 1]);
        }
    }
    assert forall|i: int| 0 <= i < x1.len() implies !(#[trigger] x1[i]).contains('\n') by {
        assert(x1[i] == x[i + 1]);
    }
    let t = terminated(x);
    lemma_terminated_cons(x);
    assert(x.drop_first() =~= x1);
    assert(t == fence + seq!['\n'] + terminated(x1));
    // Normalizing leaves the fenced part alone.
    let c = t + body;
    assert(c[0] == '-');
    assert(text::strip_start(c, CharClass::Exactly('\u{feff}')) == c);
    lemma_terminated_no_cr(x);
    lemma_replace_crlf_prefix(t, body);
    let rb = replace_crlf(body);
    assert(replace_cr(t + rb) =~= replace_cr(t) + replace_cr(rb));
    lemma_replace_without_cr(t);
    let nb = replace_cr(rb);
    let n = t + nb;
    assert(normalize(c) == n);
    // Its first line is the opening fence.
    lemma_lines_append(x, nb);
    assert(lines(n)[0] == fence);
    // The first `\n` ends it.
    let nlc = CharClass::Exactly('\n');
    assert(n =~= fence + seq!['\n'] + (terminated(x1) + nb));
    assert forall|k: int| 0 <= k < 3 implies !text::in_class(nlc, #[trigger] n[k]) by {
        assert(n[k] == fence[k]);
    }
    text::lemma_first_in_prefix(n, 3, nlc);
    assert(n.skip(4) =~= terminated(x1) + nb);
    lemma_lines_append(x1, nb);
    let rest = x1 + lines(nb);
    assert(rest =~= fm + (seq![fence] + lines(nb)));
    lemma_first_fence_after(fm, seq![fence] + lines(nb));
    assert(first_fence(rest) == fm.len());
    assert(rest.take(fm.len() as int) =~= fm);
}

/// Nothing after the closing `---` of the frontmatter is read: a `SKILL.md`
/// made of `---`, frontmatter lines (none a `---` line, none holding `\r`
/// or `\n`), `---` and any body reads as it does without the body.
pub proof fn lemma_parse_ignores_body(fm: Seq<Seq<char>>, body: Seq<char>)
    requires
        forall|i: int|
            0 <= i < fm.len() ==> !(#[trigger] fm[i]).contains('\n') && !fm[i].contains('\r')
                && text::trim(fm[i]) != "---"@,
    ensures
        spec_parse_skill_md(terminated(seq!["---"@] + fm + seq!["---"@]) + body)
            == spec_parse_skill_md(terminated(seq!["---"@] + fm + seq!["---"@])),
{
    let t = terminated(seq!["---"@] + fm + seq!["---"@]);
    lemma_fenced_frontmatter(fm, body);
    lemma_fenced_frontmatter(fm, Seq::empty());
    assert(t + Seq::<char>::empty() =~= t);
}

/// A `SKILL.md` reads the same with a byte-order mark in front.
pub proof fn lemma_parse_ignores_bom(s: Seq<char>)
    ensures
        spec_parse_skill_md(seq!['\u{feff}'] + s) == spec_parse_skill_md(s),
{
    let b = seq!['\u{feff}'] + s;
    assert(b.drop_first() =~= s);
    assert(text::strip_start(b, CharClass::Exactly('\u{feff}')) == text::strip_start(
        s,
        CharClass::Exactly('\u{feff}'),
    ));
}

/// A `SKILL.md` reads the same with Windows line endings as with `\n`.
pub proof fn lemma_parse_ignores_crlf(s: Seq<char>)
    requires
        !s.contains('\r'),
    ensures
        spec_parse_skill_md(crlf_endings(s)) == spec_parse_skill_md(s),
{
    let bom = CharClass::Exactly('\u{feff}');
    let ss = text::strip_start(s, bom);
    lemma_strip_bom_crlf(s);
    lemma_replace_crlf_endings(ss);
    lemma_replace_without_cr(ss);
    assert(normalize(crlf_endings(s)) == ss);
    assert(normalize(s) == ss);
}

// ---------------------------------------------------------------------------
// Executable parser
// ---------------------------------------------------------------------------

/// `replace_crlf(s)` as a vector.
fn replace_crlf_chars(s: &Vec<char>) -> (out: Vec<char>)
    ensures
        out@ == replace_crlf(s@),
{
    let mut out: Vec<char> = Vec::new();
    let mut i: usize = 0;
    assert(s@.skip(0) =~= s@);
    assert(out@ + replace_crlf(s@) =~= replace_crlf(s@));
    while i < s.len()
        invariant
            i <= s.len(),
            out@ + replace_crlf(s@.skip(i as int)) == replace_crlf(s@),
        decreases s.len() - i,
    {
        let ghost rest = s@.skip(i as int);
        let ghost before = out@;
        if s[i] == '\r' && i + 1 < s.len() && s[i + 1] == '\n' {
            assert(rest[0] == '\r' && rest[1] == '\n');
            assert(rest.skip(2) =~= s@.skip(i + 2));
            out.push('\n');
            assert(before + (seq!['\n'] + replace_crlf(s@.skip(i + 2))) =~= out@ + replace_crlf(
                s@.skip(i + 2),
            ));
            i = i + 2;
        } else {
            assert(rest[0] == s@[i as int]);
            assert(rest.len() >= 2 ==> rest[1] == s@[i + 1]);
            assert(rest.drop_first() =~= s@.skip(i + 1));
            out.push(s[i]);
            assert(before + (seq![s@[i as int]] + replace_crlf(s@.skip(i + 1))) =~= out@
                + replace_crlf(s@.skip(i + 1)));
            i = i + 1;
        }
    }
    assert(s@.skip(i as int) =~= Seq::<char>::empty());
    assert(out@ + Seq::<char>::empty() =~= out@);
    out
}

/// `replace_cr(s)` as a vector.
fn replace_cr_chars(s: &Vec<char>) -> (out: Vec<char>)
    ensures
        out@ == replace_cr(s@),
{
    let mut out: Vec<char> = Vec::new();
    let mut i: usize = 0;
    while i < s.len()
        invariant
            i <= s.len(),
            out@ == replace_cr(s@.take(i as int)),
        decreases s.len() - i,
    {
        let c = s[i];
        out.push(
            if c == '\r' {
                '\n'
            } else {
                c
            },
        );
        assert(replace_cr(s@.take(i + 1)) =~= replace_cr(s@.take(i as int)).push(
            if c == '\r' {
                '\n'
            } else {
                c
            },
        ));
        i = i + 1;
    }
    assert(s@.take(i as int) =~= s@);
    out
}

/// Byte-order marks removed from the start, and `\r\n` and `\r` line
/// endings made `\n`.
pub fn normalize_markdown(content: &Vec<char>) -> (out: Vec<char>)
    ensures
        out@ == normalize(content@),
{
    let a = text::strip_start_chars(content, CharClass::Exactly('\u{feff}'));
    let b = replace_crlf_chars(&a);
    replace_cr_chars(&b)
}

/// `lines(s)` as vectors.
pub fn lines_chars(s: &Vec<char>) -> (out: Vec<Vec<char>>)
    ensures
        text::views(out@) == lines(s@),
{
    if s.len() == 0 {
        let out: Vec<Vec<char>> = Vec::new();
        assert(text::views(out@) =~= Seq::<Seq<char>>::empty());
        return out;
    }
    let mut pieces = text::split_chars(s, CharClass::Exactly('\n'));
    if s[s.len() - 1] == '\n' {
        let ghost before = text::views(pieces@);
        proof {
            text::lemma_split_pieces(s@, CharClass::Exactly('\n'));
        }
        pieces.pop();
        assert(text::views(pieces@) =~= before.drop_last());
    }
    pieces
}

/// Index of the first line that is `---` once trimmed, or `ls.len()`.
fn first_fence_index(ls: &Vec<Vec<char>>) -> (i: usize)
    ensures
        i == first_fence(text::views(ls@)),
        i <= ls.len(),
{
    let fence = text::chars_of("---");
    let mut i: usize = 0;
    let ghost all = text::views(ls@);
    assert(all.skip(0) =~= all);
    while i < ls.len()
        invariant
            i <= ls.len(),
            all == text::views(ls@),
            fence@ == "---"@,
            first_fence(all) == i + first_fence(all.skip(i as int)),
        decreases ls.len() - i,
    {
        let t = text::trim_chars(&ls[i]);
        assert(all.skip(i as int)[0] == ls@[i as int]@);
        if text::chars_eq(&t, &fence) {
            return i;
        }
        assert(all.skip(i as int).drop_first() =~= all.skip(i + 1));
        i = i + 1;
    }
    assert(all.skip(i as int).len() == 0);
    i
}

/// The frontmatter of a normalized text, as its lines (see
/// `spec_extract_frontmatter`, which is these lines each ended by `\n`).
pub(crate) fn extract_frontmatter(content: &Vec<char>) -> (out: Option<Vec<Vec<char>>>)
    requires
        !content@.contains('\r'),
    ensures
        match out {
            None => spec_extract_frontmatter(content@) is None,
            Some(ls) => spec_extract_frontmatter(content@) == Some(terminated(text::views(ls@)))
                && forall|i: int| 0 <= i < ls.len() ==> !(#[trigger] ls@[i]@).contains('\n'),
        },
{
    let all = lines_chars(content);
    if all.len() == 0 {
        return None;
    }
    assert(text::views(all@)[0] == all@[0]@);
    let first = text::trim_chars(&all[0]);
    proof {
        reveal_strlit("---");
    }
    if !text::chars_eq(&first, &text::chars_of("---")) {
        return None;
    }
    let nl = text::find_from(content, 0, CharClass::Exactly('\n'));
    assert(content@.skip(0) =~= content@);
    if nl >= content.len() {
        return None;
    }
    let rest_chars = text::copy_range(content, nl + 1, content.len());
    assert(rest_chars@ =~= content@.skip(nl + 1));
    let rest = lines_chars(&rest_chars);
    let idx = first_fence_index(&rest);
    if idx >= rest.len() {
        return None;
    }
    let mut fm: Vec<Vec<char>> = Vec::new();
    let mut k: usize = 0;
    assert(text::views(fm@) =~= text::views(rest@).take(0));
    proof {
        text::lemma_split_pieces(rest_chars@, CharClass::Exactly('\n'));
    }
    while k < idx
        invariant
            k <= idx < rest.len(),
            text::views(fm@) == text::views(rest@).take(k as int),
            text::views(rest@) == lines(rest_chars@),
            forall|a: int, j: int|
                0 <= a < text::split(rest_chars@, CharClass::Exactly('\n')).len() && 0 <= j
                    < text::split(rest_chars@, CharClass::Exactly('\n'))[a].len() ==> !in_class_nl(
                    #[trigger] text::split(rest_chars@, CharClass::Exactly('\n'))[a][j],
                ),
        decreases idx - k,
    {
        let ghost before = text::views(fm@);
        fm.push(rest[k].clone());
        assert(text::views(fm@) =~= before.push(rest@[k as int]@));
        assert(text::views(rest@).take(k + 1) =~= text::views(rest@).take(k as int).push(
            rest@[k as int]@,
        ));
        k = k + 1;
    }
    assert forall|i: int| 0 <= i < fm.len() implies !(#[trigger] fm@[i]@).contains('\n') by {
        let piece = fm@[i]@;
        assert(text::views(fm@)[i] == piece);
        assert(text::views(rest@).take(k as int)[i] == text::views(rest@)[i]);
        assert(piece == text::views(rest@)[i]);
        assert(piece == text::split(rest_chars@, CharClass::Exactly('\n'))[i]);
        if piece.contains('\n') {
            let j = choose|j: int| 0 <= j < piece.len() && piece[j] == '\n';
            assert(!in_class_nl(text::split(rest_chars@, CharClass::Exactly('\n'))[i][j]));
        }
    }
    Some(fm)
}

spec fn in_class_nl(c: char) -> bool {
    text::in_class(CharClass::Exactly('\n'), c)
}

/// The `key: value` of one frontmatter line (see `line_field`).
fn line_field_chars(line: &Vec<char>) -> (out: Option<(Vec<char>, Vec<char>)>)
    ensures
        match out {
            None => line_field(line@) is None,
            Some((k, v)) => line_field(line@) == Some((k@, v@)),
        },
{
    let l = text::trim_chars(line);
    if l.len() == 0 || l[0] == '#' {
        return None;
    }
    match text::split_once_chars(&l, CharClass::Exactly(':')) {
        None => None,
        Some((k, v)) => {
            let key = text::trim_chars(&k);
            let v1 = text::trim_chars(&v);
            let v2 = text::strip_chars(&v1, CharClass::Exactly('"'));
            let v3 = text::strip_chars(&v2, CharClass::Exactly('\''));
            Some((key, v3))
        },
    }
}

/// Reads the `name` and `description` of a skill from its `SKILL.md`.
///
/// The text may start with byte-order marks and use `\r\n` or `\r` line
/// endings. It must open with a `---` line; the frontmatter runs to the
/// next `---` line. Each `key: value` line there sets a field (the last one
/// wins; empty values are ignored; values may be quoted). `name` is
/// required.
pub fn parse_skill_md(content: &str) -> (r: Result<SkillManifest, SkillError>)
    ensures
        match spec_parse_skill_md(content@) {
            Ok((n, d)) => r matches Ok(m) && m.name@ == n && text::opt_view(m.description) == d,
            Err(e) => r matches Err(e2) && e2 == e,
        },
{
    let normalized = normalize_markdown(&text::chars_of(content));
    proof {
        lemma_normalize_no_cr(content@);
    }
    let fm = match extract_frontmatter(&normalized) {
        None => {
            return Err(SkillError::MissingFrontmatter);
        },
        Some(fm) => fm,
    };
    proof {
        lemma_lines_terminated(text::views(fm@));
    }
    let ghost ls = text::views(fm@);
    let name_key = text::chars_of("name");
    let desc_key = text::chars_of("description");
    let mut name: Option<Vec<char>> = None;
    let mut description: Option<Vec<char>> = None;
    let mut i: usize = 0;
    assert(ls.take(0) =~= Seq::<Seq<char>>::empty());
    while i < fm.len()
        invariant
            i <= fm.len(),
            ls == text::views(fm@),
            name_key@ == "name"@,
            desc_key@ == "description"@,
            opt_chars_view(name) == last_value(ls.take(i as int), "name"@),
            opt_chars_view(description) == last_value(ls.take(i as int), "description"@),
        decreases fm.len() - i,
    {
        assert(ls.take(i + 1).drop_last() =~= ls.take(i as int));
        assert(ls.take(i + 1).last() == fm@[i as int]@);
        match line_field_chars(&fm[i]) {
            Some((k, v)) => {
                if v.len() > 0 {
                    if text::chars_eq(&k, &name_key) {
                        name = Some(v);
                    } else if text::chars_eq(&k, &desc_key) {
                        description = Some(v);
                    }
                }
            },
            None => {},
        }
        proof {
            reveal_strlit("name");
            reveal_strlit("description");
            assert("name"@.len() != "description"@.len());
        }
        i = i + 1;
    }
    assert(ls.take(i as int) =~= ls);
    match name {
        None => Err(SkillError::MissingName),
        Some(n) => Ok(
            SkillManifest {
                name: text::string_from(&n),
                description: match description {
                    Some(d) => Some(text::string_from(&d)),
                    None => None,
                },
            },
        ),
    }
}

/// The text of an optional character vector.
pub open spec fn opt_chars_view(o: Option<Vec<char>>) -> Option<Seq<char>> {
    match o {
        Some(v) => Some(v@),
        None => None,
    }
}

} // verus!
