//! Character-level text utilities shared by the parsers of this crate.
//!
//! Text is handled as a vector of `char`s; its model is the `Seq<char>` that
//! a `str` views as. Every operation here has a spec function that states
//! its result on sequences.
use vstd::prelude::*;

verus! {

// ---------------------------------------------------------------------------
// Character classes
// ---------------------------------------------------------------------------

/// `c` has the Unicode `White_Space` property (what `char::is_whitespace`
/// tests, and what `str::trim` removes).
pub open spec fn is_whitespace(c: char) -> bool {
    let u = c as u32;
    ||| 9 <= u <= 13
    ||| u == 32
    ||| u == 0x85
    ||| u == 0xA0
    ||| u == 0x1680
    ||| 0x2000 <= u <= 0x200A
    ||| u == 0x2028
    ||| u == 0x2029
    ||| u == 0x202F
    ||| u == 0x205F
    ||| u == 0x3000
}

/// `c` is an ASCII letter or digit.
pub open spec fn is_ascii_alnum(c: char) -> bool {
    let u = c as u32;
    ||| 48 <= u <= 57
    ||| 65 <= u <= 90
    ||| 97 <= u <= 122
}

/// ASCII lower-casing of one character; other characters are kept.
pub open spec fn ascii_lower(c: char) -> char {
    let u = c as u32;
    if 65 <= u <= 90 {
        (u + 32) as char
    } else {
        c
    }
}

/// Sets of characters that the scanners below look for.
#[derive(Clone, Copy)]
pub enum CharClass {
    /// Unicode white space.
    Whitespace,
    /// Exactly this character.
    Exactly(char),
    /// The separators of a list of install targets: `,`, space, tab, newline.
    TargetSeparator,
}

pub open spec fn in_class(cls: CharClass, c: char) -> bool {
    match cls {
        CharClass::Whitespace => is_whitespace(c),
        CharClass::Exactly(x) => c == x,
        CharClass::TargetSeparator => c == ',' || c == ' ' || c == '\t' || c == '\n',
    }
}

pub fn char_is_whitespace(c: char) -> (b: bool)
    ensures
        b == is_whitespace(c),
{
    let u = c as u32;
    (9 <= u && u <= 13) || u == 32 || u == 0x85 || u == 0xA0 || u == 0x1680 || (0x2000 <= u && u
        <= 0x200A) || u == 0x2028 || u == 0x2029 || u == 0x202F || u == 0x205F || u == 0x3000
}

pub fn char_is_ascii_alnum(c: char) -> (b: bool)
    ensures
        b == is_ascii_alnum(c),
{
    let u = c as u32;
    (48 <= u && u <= 57) || (65 <= u && u <= 90) || (97 <= u && u <= 122)
}

pub fn char_ascii_lower(c: char) -> (r: char)
    ensures
        r == ascii_lower(c),
{
    let u = c as u32;
    if 65 <= u && u <= 90 {
        let l: u32 = u + 32;
        assert(97 <= l <= 122);
        char_from_ascii(l)
    } else {
        c
    }
}

pub fn char_from_ascii(u: u32) -> (c: char)
    requires
        u < 128,
    ensures
        c == u as char,
        c as u32 == u,
{
    let b: u8 = u as u8;
    let c = b as char;
    c
}

pub fn char_in_class(cls: CharClass, c: char) -> (b: bool)
    ensures
        b == in_class(cls, c),
{
    match cls {
        CharClass::Whitespace => char_is_whitespace(c),
        CharClass::Exactly(x) => c == x,
        CharClass::TargetSeparator => c == ',' || c == ' ' || c == '\t' || c == '\n',
    }
}

// ---------------------------------------------------------------------------
// Spec functions on sequences of characters
// ---------------------------------------------------------------------------

/// Drops the leading characters of `s` that are in `cls`.
pub open spec fn strip_start(s: Seq<char>, cls: CharClass) -> Seq<char>
    decreases s.len(),
{
    if s.len() > 0 && in_class(cls, s[0]) {
        strip_start(s.drop_first(), cls)
    } else {
        s
    }
}

/// Drops the trailing characters of `s` that are in `cls`.
pub open spec fn strip_end(s: Seq<char>, cls: CharClass) -> Seq<char>
    decreases s.len(),
{
    if s.len() > 0 && in_class(cls, s.last()) {
        strip_end(s.drop_last(), cls)
    } else {
        s
    }
}

/// Drops the characters in `cls` from both ends (`str::trim_matches`).
pub open spec fn strip(s: Seq<char>, cls: CharClass) -> Seq<char> {
    strip_end(strip_start(s, cls), cls)
}

/// `str::trim`: white space removed from both ends.
pub open spec fn trim(s: Seq<char>) -> Seq<char> {
    strip(s, CharClass::Whitespace)
}

/// Index of the first character of `s` in `cls`, or `s.len()` if there is none.
pub open spec fn first_in(s: Seq<char>, cls: CharClass) -> int
    decreases s.len(),
{
    if s.len() == 0 {
        0
    } else if in_class(cls, s[0]) {
        0
    } else {
        1 + first_in(s.drop_first(), cls)
    }
}

/// `str::split` on the characters of `cls`: the pieces between separators,
/// one more piece than there are separators.
pub open spec fn split(s: Seq<char>, cls: CharClass) -> Seq<Seq<char>>
    decreases s.len(),
{
    let i = first_in(s, cls);
    if i >= s.len() {
        seq![s]
    } else {
        proof {
            lemma_first_in_bounds(s, cls);
        }
        seq![s.take(i)] + split(s.skip(i + 1), cls)
    }
}

/// `str::split_once`: the text before and after the first character of `cls`.
pub open spec fn split_once(s: Seq<char>, cls: CharClass) -> Option<(Seq<char>, Seq<char>)> {
    let i = first_in(s, cls);
    if i >= s.len() {
        None
    } else {
        Some((s.take(i), s.skip(i + 1)))
    }
}

/// `p` is a prefix of `s`.
pub open spec fn starts_with(s: Seq<char>, p: Seq<char>) -> bool {
    p.len() <= s.len() && s.take(p.len() as int) == p
}

/// `p` is a suffix of `s`.
pub open spec fn ends_with(s: Seq<char>, p: Seq<char>) -> bool {
    p.len() <= s.len() && s.skip(s.len() - p.len()) == p
}

/// `str::strip_prefix`.
pub open spec fn strip_prefix(s: Seq<char>, p: Seq<char>) -> Option<Seq<char>> {
    if starts_with(s, p) {
        Some(s.skip(p.len() as int))
    } else {
        None
    }
}

/// `str::trim_end_matches` with a nonempty text pattern: every copy of `p`
/// at the end is removed.
pub open spec fn strip_suffix_all(s: Seq<char>, p: Seq<char>) -> Seq<char>
    decreases s.len(),
{
    if p.len() > 0 && ends_with(s, p) {
        strip_suffix_all(s.take(s.len() - p.len()), p)
    } else {
        s
    }
}

/// ASCII lower-casing of a whole text.
pub open spec fn ascii_lowercase(s: Seq<char>) -> Seq<char> {
    s.map_values(|c: char| ascii_lower(c))
}

/// The texts are equal up to ASCII case (`str::eq_ignore_ascii_case`).
pub open spec fn eq_ignore_ascii_case(a: Seq<char>, b: Seq<char>) -> bool {
    ascii_lowercase(a) == ascii_lowercase(b)
}

/// The texts of `parts` joined, with `sep` between each two.
pub open spec fn join(parts: Seq<Seq<char>>, sep: Seq<char>) -> Seq<char>
    decreases parts.len(),
{
    if parts.len() == 0 {
        seq![]
    } else if parts.len() == 1 {
        parts[0]
    } else {
        join(parts.drop_last(), sep) + sep + parts.last()
    }
}

/// The texts of a list of strings.
pub open spec fn string_views(v: Seq<String>) -> Seq<Seq<char>> {
    v.map_values(|s: String| s@)
}

/// The texts of an optional string.
pub open spec fn opt_view(o: Option<String>) -> Option<Seq<char>> {
    match o {
        Some(s) => Some(s@),
        None => None,
    }
}

// ---------------------------------------------------------------------------
// Lemmas
// ---------------------------------------------------------------------------

pub proof fn lemma_first_in_bounds(s: Seq<char>, cls: CharClass)
    ensures
        0 <= first_in(s, cls) <= s.len(),
        first_in(s, cls) < s.len() ==> in_class(cls, s[first_in(s, cls)]),
        forall|k: int| 0 <= k < first_in(s, cls) ==> !in_class(cls, #[trigger] s[k]),
    decreases s.len(),
{
    if s.len() > 0 && !in_class(cls, s[0]) {
        lemma_first_in_bounds(s.drop_first(), cls);
        assert forall|k: int| 0 <= k < first_in(s, cls) implies !in_class(cls, #[trigger] s[k]) by {
            if k > 0 {
                assert(s[k] == s.drop_first()[k - 1]);
            }
        }
    }
}

/// A text with no character of `cls` is its own single piece.
pub proof fn lemma_first_in_none(s: Seq<char>, cls: CharClass)
    requires
        forall|k: int| 0 <= k < s.len() ==> !in_class(cls, #[trigger] s[k]),
    ensures
        first_in(s, cls) == s.len(),
    decreases s.len(),
{
    if s.len() > 0 {
        assert forall|k: int| 0 <= k < s.drop_first().len() implies !in_class(
            cls,
            #[trigger] s.drop_first()[k],
        ) by {
            assert(s.drop_first()[k] == s[k + 1]);
        }
        lemma_first_in_none(s.drop_first(), cls);
    }
}

/// The pieces of a split contain no separator.
pub proof fn lemma_split_pieces(s: Seq<char>, cls: CharClass)
    ensures
        split(s, cls).len() >= 1,
        forall|i: int, k: int|
            0 <= i < split(s, cls).len() && 0 <= k < split(s, cls)[i].len() ==> !in_class(
                cls,
                #[trigger] split(s, cls)[i][k],
            ),
    decreases s.len(),
{
    lemma_first_in_bounds(s, cls);
    let i = first_in(s, cls);
    if i < s.len() {
        lemma_split_pieces(s.skip(i + 1), cls);
        let rest = split(s.skip(i + 1), cls);
        assert forall|a: int, k: int|
            0 <= a < split(s, cls).len() && 0 <= k < split(s, cls)[a].len() implies !in_class(
            cls,
            #[trigger] split(s, cls)[a][k],
        ) by {
            if a == 0 {
                assert(split(s, cls)[a] == s.take(i));
                assert(s.take(i)[k] == s[k]);
            } else {
                assert(split(s, cls)[a] == rest[a - 1]);
            }
        }
    }
}

/// Splitting and joining again with the separator gives back the text.
pub proof fn lemma_join_split(s: Seq<char>, c: char)
    ensures
        join(split(s, CharClass::Exactly(c)), seq![c]) == s,
    decreases s.len(),
{
    let cls = CharClass::Exactly(c);
    lemma_first_in_bounds(s, cls);
    let i = first_in(s, cls);
    if i < s.len() {
        let rest = s.skip(i + 1);
        lemma_join_split(rest, c);
        lemma_split_pieces(rest, cls);
        lemma_join_cons(s.take(i), split(rest, cls), seq![c]);
        assert(s =~= s.take(i) + seq![c] + rest);
    }
}

/// Joining a list with one more text in front.
pub proof fn lemma_join_cons(x: Seq<char>, rest: Seq<Seq<char>>, sep: Seq<char>)
    requires
        rest.len() >= 1,
    ensures
        join(seq![x] + rest, sep) == x + sep + join(rest, sep),
    decreases rest.len(),
{
    let all = seq![x] + rest;
    assert(join(all, sep) == join(all.drop_last(), sep) + sep + all.last());
    if rest.len() == 1 {
        assert(all.drop_last() =~= seq![x]);
        assert(all.last() == rest[0]);
        assert(join(seq![x], sep) == x);
    } else {
        lemma_join_cons(x, rest.drop_last(), sep);
        assert(all.drop_last() =~= seq![x] + rest.drop_last());
        assert(all.last() == rest.last());
        assert(join(rest, sep) == join(rest.drop_last(), sep) + sep + rest.last());
        assert(x + sep + join(rest.drop_last(), sep) + sep + rest.last() =~= x + sep + (join(
            rest.drop_last(),
            sep,
        ) + sep + rest.last()));
    }
}

/// When the first `n` characters are outside the class and the next is in
/// it, the first match is at `n`.
pub proof fn lemma_first_in_prefix(s: Seq<char>, n: int, cls: CharClass)
    requires
        0 <= n < s.len(),
        in_class(cls, s[n]),
        forall|k: int| 0 <= k < n ==> !in_class(cls, #[trigger] s[k]),
    ensures
        first_in(s, cls) == n,
    decreases n,
{
    if n > 0 {
        assert forall|k: int| 0 <= k < n - 1 implies !in_class(cls, #[trigger] s.drop_first()[k]) by {
            assert(s.drop_first()[k] == s[k + 1]);
        }
        lemma_first_in_prefix(s.drop_first(), n - 1, cls);
    }
}

/// Splitting `x + [c] + rest` at the characters of `cls`, when `c` is one
/// of them and `x` holds none.
pub proof fn lemma_split_cons_class(x: Seq<char>, c: char, rest: Seq<char>, cls: CharClass)
    requires
        in_class(cls, c),
        forall|k: int| 0 <= k < x.len() ==> !in_class(cls, #[trigger] x[k]),
    ensures
        split(x + seq![c] + rest, cls) == seq![x] + split(rest, cls),
{
    let s = x + seq![c] + rest;
    assert forall|k: int| 0 <= k < x.len() implies !in_class(cls, #[trigger] s[k]) by {
        assert(s[k] == x[k]);
    }
    lemma_first_in_prefix(s, x.len() as int, cls);
    assert(s.take(x.len() as int) =~= x);
    assert(s.skip(x.len() as int + 1) =~= rest);
}

/// `split_once` at a character: the text is the part before, the
/// character and the part after, and the part before holds no such
/// character; `None` exactly when the text holds none.
pub proof fn lemma_split_once_exactly(x: Seq<char>, c: char)
    ensures
        match split_once(x, CharClass::Exactly(c)) {
            Some((a, b)) => x == a + seq![c] + b && !a.contains(c),
            None => !x.contains(c),
        },
{
    let cls = CharClass::Exactly(c);
    lemma_first_in_bounds(x, cls);
    let i = first_in(x, cls);
    if i < x.len() {
        assert(x =~= x.take(i) + seq![c] + x.skip(i + 1));
        if x.take(i).contains(c) {
            let k = choose|k: int| 0 <= k < x.take(i).len() && x.take(i)[k] == c;
            assert(x[k] == c);
        }
    } else if x.contains(c) {
        let k = choose|k: int| 0 <= k < x.len() && x[k] == c;
        assert(!in_class(cls, x[k]));
    }
}

/// `split_once` at a character of `a + [c] + b`, where `a` holds no `c`,
/// gives `a` and `b`.
pub proof fn lemma_split_once_at(a: Seq<char>, c: char, b: Seq<char>)
    requires
        !a.contains(c),
    ensures
        split_once(a + seq![c] + b, CharClass::Exactly(c)) == Some((a, b)),
{
    let cls = CharClass::Exactly(c);
    let x = a + seq![c] + b;
    assert forall|k: int| 0 <= k < a.len() implies !in_class(cls, #[trigger] x[k]) by {
        assert(x[k] == a[k]);
    }
    lemma_first_in_prefix(x, a.len() as int, cls);
    assert(x.take(a.len() as int) =~= a);
    assert(x.skip(a.len() as int + 1) =~= b);
}

/// `split_once` at a character a text does not hold is `None`.
pub proof fn lemma_split_once_none(a: Seq<char>, c: char)
    requires
        !a.contains(c),
    ensures
        split_once(a, CharClass::Exactly(c)) is None,
{
    let cls = CharClass::Exactly(c);
    assert forall|k: int| 0 <= k < a.len() implies !in_class(cls, #[trigger] a[k]) by {
        if a[k] == c {
            assert(a.contains(c));
        }
    }
    lemma_first_in_none(a, cls);
}

/// Splitting two texts joined by a separator gives the pieces of each.
pub proof fn lemma_split_concat(a: Seq<char>, c: char, b: Seq<char>, cls: CharClass)
    requires
        in_class(cls, c),
    ensures
        split(a + seq![c] + b, cls) == split(a, cls) + split(b, cls),
    decreases a.len(),
{
    lemma_first_in_bounds(a, cls);
    let i = first_in(a, cls);
    if i >= a.len() {
        lemma_split_cons_class(a, c, b, cls);
    } else {
        let t = a + seq![c] + b;
        assert forall|k: int| 0 <= k < i implies !in_class(cls, #[trigger] t[k]) by {
            assert(t[k] == a[k]);
        }
        assert(t[i] == a[i]);
        lemma_first_in_prefix(t, i, cls);
        assert(t.take(i) =~= a.take(i));
        assert(t.skip(i + 1) =~= a.skip(i + 1) + seq![c] + b);
        lemma_split_concat(a.skip(i + 1), c, b, cls);
        assert(seq![a.take(i)] + (split(a.skip(i + 1), cls) + split(b, cls)) =~= (seq![a.take(i)]
            + split(a.skip(i + 1), cls)) + split(b, cls));
    }
}

/// Splitting `x + [c] + rest` at `c` when `x` holds no `c`.
pub proof fn lemma_split_cons(x: Seq<char>, c: char, rest: Seq<char>)
    requires
        !x.contains(c),
    ensures
        split(x + seq![c] + rest, CharClass::Exactly(c)) == seq![x] + split(
            rest,
            CharClass::Exactly(c),
        ),
{
    let cls = CharClass::Exactly(c);
    let s = x + seq![c] + rest;
    assert forall|k: int| 0 <= k < x.len() implies !in_class(cls, #[trigger] s[k]) by {
        assert(s[k] == x[k]);
    }
    lemma_first_in_prefix(s, x.len() as int, cls);
    assert(s.take(x.len() as int) =~= x);
    assert(s.skip(x.len() as int + 1) =~= rest);
}

// ---------------------------------------------------------------------------
// Executable operations
// ---------------------------------------------------------------------------

/// The characters of a string slice, in order.
pub fn chars_of(s: &str) -> (out: Vec<char>)
    ensures
        out@ == s@,
{
    let mut out: Vec<char> = Vec::new();
    for c in it: s.chars()
        invariant
            out@ == it.seq().take(it.index() as int),
    {
        out.push(c);
    }
    out
}

/// Appends one character to a `String` (`String::push`).
#[verifier::external_body]
pub(crate) fn string_push(s: &mut String, c: char)
    ensures
        final(s)@ == old(s)@.push(c),
{
    s.push(c);
}

/// Appends a string slice to a `String` (`String::push_str`).
#[verifier::external_body]
pub(crate) fn string_push_str(s: &mut String, t: &str)
    ensures
        final(s)@ == old(s)@ + t@,
{
    s.push_str(t);
}

/// Names what `str::to_lowercase` returns: the full Unicode lower-casing.
pub uninterp spec fn unicode_lowercase(s: Seq<char>) -> Seq<char>;

/// The text is ASCII.
pub open spec fn is_ascii_text(s: Seq<char>) -> bool {
    forall|i: int| 0 <= i < s.len() ==> (#[trigger] s[i] as u32) < 128
}

/// `str::to_lowercase`. Its result is named: it is the Unicode lower-case
/// mapping of the whole text, which takes the Unicode tables to state. The
/// one fact stated is the documented one that ASCII text is lower-cased
/// letter by letter, `A`-`Z` to `a`-`z`.
#[verifier::external_body]
pub(crate) fn str_to_lowercase(s: &str) -> (out: String)
    ensures
        out@ == unicode_lowercase(s@),
        is_ascii_text(s@) ==> out@ == ascii_lowercase(s@),
{
    s.to_lowercase()
}

/// A `String` holding the given characters.
pub fn string_from(v: &Vec<char>) -> (out: String)
    ensures
        out@ == v@,
{
    let mut out = String::new();
    let mut i: usize = 0;
    while i < v.len()
        invariant
            i <= v.len(),
            out@ == v@.take(i as int),
        decreases v.len() - i,
    {
        string_push(&mut out, v[i]);
        assert(v@.take(i + 1) =~= v@.take(i as int).push(v@[i as int]));
        i = i + 1;
    }
    assert(v@.take(v.len() as int) =~= v@);
    out
}

/// A `String` copy of a string slice.
pub fn owned(s: &str) -> (out: String)
    ensures
        out@ == s@,
{
    s.to_owned()
}

/// The characters `s[lo..hi]` in a new vector.
pub fn copy_range(s: &Vec<char>, lo: usize, hi: usize) -> (out: Vec<char>)
    requires
        lo <= hi <= s.len(),
    ensures
        out@ == s@.subrange(lo as int, hi as int),
{
    let mut out: Vec<char> = Vec::new();
    let mut i = lo;
    while i < hi
        invariant
            lo <= i <= hi <= s.len(),
            out@ == s@.subrange(lo as int, i as int),
        decreases hi - i,
    {
        out.push(s[i]);
        assert(s@.subrange(lo as int, i + 1) =~= s@.subrange(lo as int, i as int).push(
            s@[i as int],
        ));
        i = i + 1;
    }
    out
}

/// Element-wise equality of two character vectors.
pub fn chars_eq(a: &Vec<char>, b: &Vec<char>) -> (r: bool)
    ensures
        r == (a@ == b@),
{
    if a.len() != b.len() {
        return false;
    }
    let mut i: usize = 0;
    while i < a.len()
        invariant
            a.len() == b.len(),
            i <= a.len(),
            forall|k: int| 0 <= k < i ==> a@[k] == b@[k],
        decreases a.len() - i,
    {
        if a[i] != b[i] {
            return false;
        }
        i = i + 1;
    }
    assert(a@ =~= b@);
    true
}

/// Index of the first character at or after `from` that is in `cls`, or
/// `s.len()` if there is none.
pub fn find_from(s: &Vec<char>, from: usize, cls: CharClass) -> (i: usize)
    requires
        from <= s.len(),
    ensures
        i == from + first_in(s@.skip(from as int), cls),
        from <= i <= s.len(),
{
    let mut j = from;
    while j < s.len()
        invariant
            from <= j <= s.len(),
            first_in(s@.skip(from as int), cls) == (j - from) + first_in(s@.skip(j as int), cls),
        decreases s.len() - j,
    {
        if char_in_class(cls, s[j]) {
            assert(s@.skip(j as int)[0] == s@[j as int]);
            return j;
        }
        assert(s@.skip(j as int)[0] == s@[j as int]);
        assert(s@.skip(j as int).drop_first() =~= s@.skip(j + 1));
        j = j + 1;
    }
    assert(s@.skip(j as int).len() == 0);
    j
}

/// The index where `strip_start(s, cls)` begins.
pub fn strip_start_index(s: &Vec<char>, cls: CharClass) -> (i: usize)
    ensures
        i <= s.len(),
        strip_start(s@, cls) == s@.skip(i as int),
{
    let mut i: usize = 0;
    assert(s@.skip(0) =~= s@);
    while i < s.len() && char_in_class(cls, s[i])
        invariant
            i <= s.len(),
            strip_start(s@, cls) == strip_start(s@.skip(i as int), cls),
        decreases s.len() - i,
    {
        assert(s@.skip(i as int)[0] == s@[i as int]);
        assert(s@.skip(i as int).drop_first() =~= s@.skip(i + 1));
        i = i + 1;
    }
    if i < s.len() {
        assert(s@.skip(i as int)[0] == s@[i as int]);
    } else {
        assert(s@.skip(i as int).len() == 0);
    }
    i
}

/// `strip_start(s, cls)` as a new vector.
pub fn strip_start_chars(s: &Vec<char>, cls: CharClass) -> (out: Vec<char>)
    ensures
        out@ == strip_start(s@, cls),
{
    let i = strip_start_index(s, cls);
    let out = copy_range(s, i, s.len());
    assert(out@ =~= s@.skip(i as int));
    out
}

/// `strip(s, cls)` as a new vector.
pub fn strip_chars(s: &Vec<char>, cls: CharClass) -> (out: Vec<char>)
    ensures
        out@ == strip(s@, cls),
{
    let i = strip_start_index(s, cls);
    let mut j: usize = s.len();
    assert(s@.skip(i as int) =~= s@.subrange(i as int, j as int));
    while j > i && char_in_class(cls, s[j - 1])
        invariant
            i <= j <= s.len(),
            strip_start(s@, cls) == s@.skip(i as int),
            strip_end(s@.skip(i as int), cls) == strip_end(s@.subrange(i as int, j as int), cls),
        decreases j,
    {
        let ghost sub = s@.subrange(i as int, j as int);
        assert(sub.last() == s@[j - 1]);
        assert(sub.drop_last() =~= s@.subrange(i as int, j - 1));
        j = j - 1;
    }
    let ghost sub = s@.subrange(i as int, j as int);
    assert(strip_end(sub, cls) == sub) by {
        if j > i {
            assert(sub.last() == s@[j - 1]);
        }
    }
    copy_range(s, i, j)
}

/// `trim(s)` as a new vector.
pub fn trim_chars(s: &Vec<char>) -> (out: Vec<char>)
    ensures
        out@ == trim(s@),
{
    strip_chars(s, CharClass::Whitespace)
}

/// The texts held by a list of character vectors.
pub open spec fn views(v: Seq<Vec<char>>) -> Seq<Seq<char>> {
    v.map_values(|x: Vec<char>| x@)
}

/// `split(s, cls)` as vectors.
pub fn split_chars(s: &Vec<char>, cls: CharClass) -> (out: Vec<Vec<char>>)
    ensures
        views(out@) == split(s@, cls),
{
    let mut out: Vec<Vec<char>> = Vec::new();
    let mut start: usize = 0;
    assert(s@.skip(0) =~= s@);
    assert(views(out@) =~= Seq::<Seq<char>>::empty());
    loop
        invariant
            start <= s.len(),
            views(out@) + split(s@.skip(start as int), cls) == split(s@, cls),
        decreases s.len() - start,
    {
        let ghost rest = s@.skip(start as int);
        let k = find_from(s, start, cls);
        if k == s.len() {
            let piece = copy_range(s, start, k);
            assert(piece@ =~= rest);
            let ghost before = views(out@);
            out.push(piece);
            assert(views(out@) =~= before + seq![piece@]);
            assert(views(out@) == split(s@, cls));
            return out;
        }
        proof {
            lemma_first_in_bounds(rest, cls);
        }
        let piece = copy_range(s, start, k);
        assert(piece@ =~= rest.take(k - start));
        assert(rest.skip(k - start + 1) =~= s@.skip(k + 1));
        let ghost before = views(out@);
        out.push(piece);
        assert(views(out@) =~= before + seq![piece@]);
        assert(before + split(rest, cls) == before + (seq![piece@] + split(s@.skip(k + 1), cls)));
        assert(before + (seq![piece@] + split(s@.skip(k + 1), cls)) =~= views(out@) + split(
            s@.skip(k + 1),
            cls,
        ));
        start = k + 1;
    }
}

/// `split_once(s, cls)` as vectors.
pub fn split_once_chars(s: &Vec<char>, cls: CharClass) -> (out: Option<(Vec<char>, Vec<char>)>)
    ensures
        match out {
            None => split_once(s@, cls) is None,
            Some((a, b)) => split_once(s@, cls) == Some((a@, b@)),
        },
{
    let k = find_from(s, 0, cls);
    assert(s@.skip(0) =~= s@);
    if k == s.len() {
        None
    } else {
        let a = copy_range(s, 0, k);
        let b = copy_range(s, k + 1, s.len());
        assert(a@ =~= s@.take(k as int));
        assert(b@ =~= s@.skip(k + 1));
        Some((a, b))
    }
}

/// Whether `p` is a prefix of `s`.
pub fn starts_with_chars(s: &Vec<char>, p: &Vec<char>) -> (r: bool)
    ensures
        r == starts_with(s@, p@),
{
    if p.len() > s.len() {
        return false;
    }
    let mut i: usize = 0;
    while i < p.len()
        invariant
            p.len() <= s.len(),
            i <= p.len(),
            forall|k: int| 0 <= k < i ==> s@[k] == p@[k],
        decreases p.len() - i,
    {
        if s[i] != p[i] {
            assert(s@.take(p.len() as int)[i as int] != p@[i as int]);
            return false;
        }
        i = i + 1;
    }
    assert(s@.take(p.len() as int) =~= p@);
    true
}

/// Whether `p` is a suffix of `s`.
pub fn ends_with_chars(s: &Vec<char>, p: &Vec<char>) -> (r: bool)
    ensures
        r == ends_with(s@, p@),
{
    if p.len() > s.len() {
        return false;
    }
    let off = s.len() - p.len();
    let mut i: usize = 0;
    while i < p.len()
        invariant
            p.len() <= s.len(),
            off == s.len() - p.len(),
            i <= p.len(),
            forall|k: int| 0 <= k < i ==> s@[off + k] == p@[k],
        decreases p.len() - i,
    {
        if s[off + i] != p[i] {
            assert(s@.skip(off as int)[i as int] != p@[i as int]);
            return false;
        }
        i = i + 1;
    }
    assert(s@.skip(off as int) =~= p@);
    true
}

/// `strip_prefix(s, p)` as a vector.
pub fn strip_prefix_chars(s: &Vec<char>, p: &Vec<char>) -> (out: Option<Vec<char>>)
    ensures
        match out {
            None => strip_prefix(s@, p@) is None,
            Some(r) => strip_prefix(s@, p@) == Some(r@),
        },
{
    if starts_with_chars(s, p) {
        let r = copy_range(s, p.len(), s.len());
        assert(r@ =~= s@.skip(p.len() as int));
        Some(r)
    } else {
        None
    }
}

/// `strip_suffix_all(s, p)` as a vector.
pub fn strip_suffix_all_chars(s: &Vec<char>, p: &Vec<char>) -> (out: Vec<char>)
    ensures
        out@ == strip_suffix_all(s@, p@),
{
    if p.len() == 0 {
        return copy_range(s, 0, s.len());
    }
    let mut cur = copy_range(s, 0, s.len());
    assert(cur@ =~= s@);
    loop
        invariant
            p.len() > 0,
            strip_suffix_all(cur@, p@) == strip_suffix_all(s@, p@),
        decreases cur.len(),
    {
        if !ends_with_chars(&cur, p) {
            return cur;
        }
        let next = copy_range(&cur, 0, cur.len() - p.len());
        assert(next@ =~= cur@.take(cur@.len() - p@.len()));
        cur = next;
    }
}

/// ASCII lower-casing of a character vector.
pub fn ascii_lowercase_chars(s: &Vec<char>) -> (out: Vec<char>)
    ensures
        out@ == ascii_lowercase(s@),
{
    let mut out: Vec<char> = Vec::new();
    let mut i: usize = 0;
    while i < s.len()
        invariant
            i <= s.len(),
            out@ == ascii_lowercase(s@.take(i as int)),
        decreases s.len() - i,
    {
        out.push(char_ascii_lower(s[i]));
        assert(ascii_lowercase(s@.take(i + 1)) =~= ascii_lowercase(s@.take(i as int)).push(
            ascii_lower(s@[i as int]),
        ));
        i = i + 1;
    }
    assert(s@.take(s.len() as int) =~= s@);
    out
}

/// `str::eq_ignore_ascii_case` on character vectors.
pub fn eq_ignore_ascii_case_chars(a: &Vec<char>, b: &Vec<char>) -> (r: bool)
    ensures
        r == eq_ignore_ascii_case(a@, b@),
{
    let la = ascii_lowercase_chars(a);
    let lb = ascii_lowercase_chars(b);
    chars_eq(&la, &lb)
}

/// The strings of `list` joined with `sep` between each two (`[String]::join`).
pub fn join_strings(list: &Vec<String>, sep: &str) -> (out: String)
    ensures
        out@ == join(string_views(list@), sep@),
{
    let mut out = String::new();
    let mut i: usize = 0;
    let ghost all = string_views(list@);
    assert(all.take(0) =~= Seq::<Seq<char>>::empty());
    while i < list.len()
        invariant
            i <= list.len(),
            all == string_views(list@),
            out@ == join(all.take(i as int), sep@),
        decreases list.len() - i,
    {
        assert(all.take(i + 1).drop_last() =~= all.take(i as int));
        assert(all.take(i + 1).last() == list@[i as int]@);
        if i > 0 {
            string_push_str(&mut out, sep);
        } else {
            assert(all.take(1) =~= seq![list@[0]@]);
        }
        string_push_str(&mut out, list[i].as_str());
        i = i + 1;
    }
    assert(all.take(i as int) =~= all);
    out
}

/// Appends the characters of `t` to `s`.
pub fn push_chars(s: &mut String, t: &Vec<char>)
    ensures
        final(s)@ == old(s)@ + t@,
{
    let mut i: usize = 0;
    while i < t.len()
        invariant
            i <= t.len(),
            s@ == old(s)@ + t@.take(i as int),
        decreases t.len() - i,
    {
        string_push(s, t[i]);
        assert(old(s)@ + t@.take(i + 1) =~= old(s)@ + t@.take(i as int) + seq![t@[i as int]]);
        i = i + 1;
    }
    assert(t@.take(t.len() as int) =~= t@);
}

} // verus!
