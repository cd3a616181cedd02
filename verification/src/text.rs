//! Character-level text handling: trimming, splitting, joining and ASCII case.
//!
//! Every function is specified over `Seq<char>`, the view of `str` and `String`.

use vstd::prelude::*;

verus! {

/// `str::to_ascii_uppercase` gives a copy in which the ASCII letters `a` to `z` are mapped to `A` to
/// `Z`; every other character stays as it is.
pub assume_specification[ str::to_ascii_uppercase ](s: &str) -> (r: String)
    ensures
        r@ == uppered(s@),
;

/// `str::to_ascii_lowercase` gives a copy in which the ASCII letters `A` to `Z` are mapped to `a` to
/// `z`; every other character stays as it is.
pub assume_specification[ str::to_ascii_lowercase ](s: &str) -> (r: String)
    ensures
        r@ == lowered(s@),
;

// ---------------------------------------------------------------------------------------------
// White space
// ---------------------------------------------------------------------------------------------

/// The characters with the Unicode property `White_Space`.
pub open spec fn white_space(c: char) -> bool {
    let u = c as u32;
    ||| 0x09 <= u <= 0x0d
    ||| u == 0x20
    ||| u == 0x85
    ||| u == 0xa0
    ||| u == 0x1680
    ||| 0x2000 <= u <= 0x200a
    ||| u == 0x2028
    ||| u == 0x2029
    ||| u == 0x202f
    ||| u == 0x205f
    ||| u == 0x3000
}

/// Whether `c` is white space.
pub fn is_white_space(c: char) -> (r: bool)
    ensures
        r == white_space(c),
{
    let u: u32 = c as u32;
    (0x09 <= u && u <= 0x0d) || u == 0x20 || u == 0x85 || u == 0xa0 || u == 0x1680 || (0x2000 <= u
        && u <= 0x200a) || u == 0x2028 || u == 0x2029 || u == 0x202f || u == 0x205f || u == 0x3000
}

/// `s` without its leading white space.
pub open spec fn trimmed_start(s: Seq<char>) -> Seq<char>
    decreases s.len(),
{
    if s.len() > 0 && white_space(s[0]) {
        trimmed_start(s.drop_first())
    } else {
        s
    }
}

/// `s` without its trailing white space.
pub open spec fn trimmed_end(s: Seq<char>) -> Seq<char>
    decreases s.len(),
{
    if s.len() > 0 && white_space(s.last()) {
        trimmed_end(s.drop_last())
    } else {
        s
    }
}

/// `s` without leading and trailing white space.
pub open spec fn trimmed(s: Seq<char>) -> Seq<char> {
    trimmed_end(trimmed_start(s))
}

/// The characters of a string slice.
pub fn chars_of(s: &str) -> (r: Vec<char>)
    ensures
        r@ == s@,
{
    let mut out: Vec<char> = Vec::new();
    for c in it: s.chars()
        invariant
            it.seq() == s@,
            out@ == s@.take(it.index() as int),
    {
        out.push(c);
    }
    out
}

/// `s` without leading and trailing white space.
pub fn trim<'a>(s: &'a str) -> (r: &'a str)
    ensures
        r@ == trimmed(s@),
{
    let cs = chars_of(s);
    let mut i: usize = 0;
    assert(s@.skip(0) =~= s@);
    while i < cs.len() && is_white_space(cs[i])
        invariant
            i <= cs.len(),
            cs@ == s@,
            trimmed_start(s@.skip(i as int)) == trimmed_start(s@),
        decreases cs.len() - i,
    {
        proof {
            assert(s@.skip(i as int).drop_first() =~= s@.skip(i + 1));
        }
        i = i + 1;
    }
    let mut j: usize = cs.len();
    proof {
        assert(s@.subrange(i as int, j as int) =~= s@.skip(i as int));
    }
    while i < j && is_white_space(cs[j - 1])
        invariant
            i <= j <= cs.len(),
            cs@ == s@,
            trimmed_end(s@.subrange(i as int, j as int)) == trimmed(s@),
        decreases j - i,
    {
        proof {
            assert(s@.subrange(i as int, j as int).drop_last() =~= s@.subrange(i as int, j - 1));
        }
        j = j - 1;
    }
    s.substring_char(i, j)
}

// ---------------------------------------------------------------------------------------------
// Splitting and joining
// ---------------------------------------------------------------------------------------------

/// The views of a sequence of string slices.
pub open spec fn views(v: Seq<&str>) -> Seq<Seq<char>> {
    v.map_values(|s: &str| s@)
}

/// The views of a sequence of strings.
pub open spec fn string_views(v: Seq<String>) -> Seq<Seq<char>> {
    v.map_values(|s: String| s@)
}

/// The position of the first `c` in `s`, or the length of `s` if there is none.
pub open spec fn first_index(s: Seq<char>, c: char) -> nat
    decreases s.len(),
{
    if s.len() == 0 || s[0] == c {
        0
    } else {
        1 + first_index(s.drop_first(), c)
    }
}

/// The position of the last `c` in `s`, or -1 if there is none.
pub open spec fn last_index(s: Seq<char>, c: char) -> int
    decreases s.len(),
{
    if s.len() == 0 {
        -1
    } else if s.last() == c {
        s.len() - 1
    } else {
        last_index(s.drop_last(), c)
    }
}

/// `first_index` is the length of the longest prefix that does not hold `c`.
pub proof fn lemma_first_index(s: Seq<char>, c: char, i: int)
    requires
        0 <= i <= s.len(),
        forall|j: int| 0 <= j < i ==> s[j] != c,
        i < s.len() ==> s[i] == c,
    ensures
        first_index(s, c) == i,
    decreases s.len(),
{
    if i > 0 {
        lemma_first_index(s.drop_first(), c, i - 1);
    }
}

/// `first_index` lies in the sequence or at its end, and nothing before it is `c`.
pub proof fn lemma_first_index_bounds(s: Seq<char>, c: char)
    ensures
        0 <= first_index(s, c) <= s.len(),
        forall|j: int| 0 <= j < first_index(s, c) ==> s[j] != c,
        first_index(s, c) < s.len() ==> s[first_index(s, c) as int] == c,
    decreases s.len(),
{
    if s.len() > 0 && s[0] != c {
        let t = s.drop_first();
        lemma_first_index_bounds(t, c);
        assert forall|j: int| 0 <= j < first_index(s, c) implies s[j] != c by {
            if j > 0 {
                assert(t[j - 1] != c);
            }
        }
    }
}

/// `last_index` is the position after which nothing is `c`.
pub proof fn lemma_last_index(s: Seq<char>, c: char, i: int)
    requires
        -1 <= i < s.len(),
        forall|j: int| i < j < s.len() ==> s[j] != c,
        i >= 0 ==> s[i] == c,
    ensures
        last_index(s, c) == i,
    decreases s.len(),
{
    if s.len() > 0 && i < s.len() - 1 {
        lemma_last_index(s.drop_last(), c, i);
    }
}

/// The pieces of `s` between the separators: one more than there are separators.
pub open spec fn split_at_each(s: Seq<char>, sep: char) -> Seq<Seq<char>>
    decreases s.len(),
{
    let i = first_index(s, sep) as int;
    if i >= s.len() {
        seq![s]
    } else {
        seq![s.take(i)] + split_at_each(s.skip(i + 1), sep)
    }
}

/// The pieces joined by a separator in front of each.
pub open spec fn joined_tail(parts: Seq<Seq<char>>, sep: char) -> Seq<char>
    decreases parts.len(),
{
    if parts.len() == 0 {
        Seq::empty()
    } else {
        seq![sep] + parts[0] + joined_tail(parts.drop_first(), sep)
    }
}

/// The pieces joined by a separator between neighbours.
pub open spec fn joined(parts: Seq<Seq<char>>, sep: char) -> Seq<char> {
    if parts.len() == 0 {
        Seq::empty()
    } else {
        parts[0] + joined_tail(parts.drop_first(), sep)
    }
}

/// Splits `s` at each `sep`.
pub fn split<'a>(s: &'a str, sep: char) -> (r: Vec<&'a str>)
    ensures
        views(r@) == split_at_each(s@, sep),
        r@.len() >= 1,
{
    let cs = chars_of(s);
    let mut out: Vec<&'a str> = Vec::new();
    let mut start: usize = 0;
    let mut i: usize = 0;
    proof {
        assert(s@.skip(0) =~= s@);
        assert(views(out@) + split_at_each(s@, sep) =~= split_at_each(s@, sep));
    }
    while i < cs.len()
        invariant
            start <= i <= cs.len(),
            cs@ == s@,
            views(out@) + split_at_each(s@.skip(start as int), sep) == split_at_each(s@, sep),
            forall|j: int| start <= j < i ==> s@[j] != sep,
        decreases cs.len() - i,
    {
        if cs[i] == sep {
            let ghost before = out@;
            let piece = s.substring_char(start, i);
            out.push(piece);
            proof {
                let t = s@.skip(start as int);
                lemma_first_index(t, sep, i - start);
                assert(t.take(i - start) =~= piece@);
                assert(t.skip(i - start + 1) =~= s@.skip(i + 1));
                assert(views(out@) =~= views(before).push(piece@));
                assert(views(out@) + split_at_each(s@.skip(i + 1), sep) =~= views(before)
                    + split_at_each(t, sep));
            }
            start = i + 1;
        }
        i = i + 1;
    }
    let ghost before = out@;
    let piece = s.substring_char(start, cs.len());
    out.push(piece);
    proof {
        let t = s@.skip(start as int);
        lemma_first_index(t, sep, t.len() as int);
        assert(t =~= piece@);
        assert(views(out@) =~= views(before).push(piece@));
        assert(views(out@) =~= views(before) + split_at_each(t, sep));
    }
    out
}

/// What stands before and after the first `sep`, if there is one.
pub open spec fn split_first(s: Seq<char>, sep: char) -> Option<(Seq<char>, Seq<char>)> {
    let i = first_index(s, sep) as int;
    if i < s.len() {
        Some((s.take(i), s.skip(i + 1)))
    } else {
        None
    }
}

/// What stands before and after the last `sep`, if there is one.
pub open spec fn split_last(s: Seq<char>, sep: char) -> Option<(Seq<char>, Seq<char>)> {
    let i = last_index(s, sep);
    if i >= 0 {
        Some((s.take(i), s.skip(i + 1)))
    } else {
        None
    }
}

/// Splits `s` at its first `sep`.
pub fn split_once<'a>(s: &'a str, sep: char) -> (r: Option<(&'a str, &'a str)>)
    ensures
        r matches Some(p) ==> split_first(s@, sep) == Some((p.0@, p.1@)),
        r is None ==> split_first(s@, sep) is None,
{
    let cs = chars_of(s);
    let mut i: usize = 0;
    while i < cs.len()
        invariant
            i <= cs.len(),
            cs@ == s@,
            forall|j: int| 0 <= j < i ==> s@[j] != sep,
        decreases cs.len() - i,
    {
        if cs[i] == sep {
            proof {
                lemma_first_index(s@, sep, i as int);
                assert(s@.subrange(0, i as int) =~= s@.take(i as int));
                assert(s@.subrange(i + 1, s@.len() as int) =~= s@.skip(i + 1));
            }
            return Some((s.substring_char(0, i), s.substring_char(i + 1, cs.len())));
        }
        i = i + 1;
    }
    proof {
        lemma_first_index(s@, sep, s@.len() as int);
    }
    None
}

/// Splits `s` at its last `sep`.
pub fn rsplit_once<'a>(s: &'a str, sep: char) -> (r: Option<(&'a str, &'a str)>)
    ensures
        r matches Some(p) ==> split_last(s@, sep) == Some((p.0@, p.1@)),
        r is None ==> split_last(s@, sep) is None,
{
    let cs = chars_of(s);
    let mut i: usize = cs.len();
    while i > 0
        invariant
            i <= cs.len(),
            cs@ == s@,
            forall|j: int| i <= j < s@.len() ==> s@[j] != sep,
        decreases i,
    {
        if cs[i - 1] == sep {
            proof {
                lemma_last_index(s@, sep, i - 1);
                assert(s@.subrange(0, i - 1) =~= s@.take(i - 1));
                assert(s@.subrange(i as int, s@.len() as int) =~= s@.skip(i as int));
            }
            return Some((s.substring_char(0, i - 1), s.substring_char(i, cs.len())));
        }
        i = i - 1;
    }
    proof {
        lemma_last_index(s@, sep, -1);
    }
    None
}

/// Appends the pieces of `parts` from `from` on to `out`, with a comma between neighbours.
pub fn push_joined(out: &mut String, parts: &[&str], from: usize)
    requires
        from <= parts@.len(),
    ensures
        final(out)@ == old(out)@ + joined(views(parts@.skip(from as int)), ','),
{
    let ghost all = views(parts@.skip(from as int));
    let ghost base = out@;
    if from == parts.len() {
        assert(out@ =~= base + joined(all, ','));
        return;
    }
    out.append(parts[from]);
    let mut i: usize = from + 1;
    proof {
        assert(all[0] == parts@[from as int]@);
        assert(views(parts@.skip(i as int)) =~= all.drop_first());
        assert(out@ + joined_tail(views(parts@.skip(i as int)), ',') =~= base + joined(all, ','));
    }
    while i < parts.len()
        invariant
            from < i <= parts@.len(),
            out@ + joined_tail(views(parts@.skip(i as int)), ',') == base + joined(all, ','),
        decreases parts@.len() - i,
    {
        let ghost acc = out@;
        out.append(",");
        out.append(parts[i]);
        proof {
            reveal_strlit(",");
            let v = views(parts@.skip(i as int));
            assert(v[0] == parts@[i as int]@);
            assert(views(parts@.skip(i + 1)) =~= v.drop_first());
            assert(","@ =~= seq![',']);
            assert(out@ + joined_tail(views(parts@.skip(i + 1)), ',') =~= acc + joined_tail(v, ','));
        }
        i = i + 1;
    }
    assert(out@ =~= out@ + joined_tail(views(parts@.skip(i as int)), ','));
}

// ---------------------------------------------------------------------------------------------
// ASCII case
// ---------------------------------------------------------------------------------------------

/// The upper-case form of an ASCII letter; any other character unchanged.
pub open spec fn upper(c: char) -> char {
    if 'a' <= c <= 'z' {
        (c as u32 - 32) as char
    } else {
        c
    }
}

/// The lower-case form of an ASCII letter; any other character unchanged.
pub open spec fn lower(c: char) -> char {
    if 'A' <= c <= 'Z' {
        (c as u32 + 32) as char
    } else {
        c
    }
}

/// `s` with its ASCII letters in upper case.
pub open spec fn uppered(s: Seq<char>) -> Seq<char> {
    s.map_values(|c: char| upper(c))
}

/// `s` with its ASCII letters in lower case.
pub open spec fn lowered(s: Seq<char>) -> Seq<char> {
    s.map_values(|c: char| lower(c))
}

/// Whether two string slices hold the same characters.
pub fn same(a: &str, b: &str) -> (r: bool)
    ensures
        r == (a@ == b@),
{
    let x = chars_of(a);
    let y = chars_of(b);
    if x.len() != y.len() {
        return false;
    }
    let mut i: usize = 0;
    while i < x.len()
        invariant
            i <= x.len(),
            x@ == a@,
            y@ == b@,
            x.len() == y.len(),
            forall|j: int| 0 <= j < i ==> a@[j] == b@[j],
        decreases x.len() - i,
    {
        if x[i] != y[i] {
            return false;
        }
        i = i + 1;
    }
    assert(a@ =~= b@);
    true
}

// ---------------------------------------------------------------------------------------------
// Laws
// ---------------------------------------------------------------------------------------------

/// Whether no piece holds the separator.
pub open spec fn free_of(parts: Seq<Seq<char>>, sep: char) -> bool {
    forall|i: int, j: int|
        0 <= i < parts.len() && 0 <= j < parts[i].len() ==> #[trigger] parts[i][j] != sep
}

/// Splitting undoes joining, for pieces that do not hold the separator.
pub proof fn law_split_undoes_join(parts: Seq<Seq<char>>, sep: char)
    requires
        parts.len() > 0,
        free_of(parts, sep),
    ensures
        split_at_each(joined(parts, sep), sep) == parts,
    decreases parts.len(),
{
    let s = joined(parts, sep);
    let rest = parts.drop_first();
    assert forall|j: int| 0 <= j < parts[0].len() implies s[j] != sep by {
        assert(parts[0][j] != sep);
    }
    lemma_first_index(s, sep, parts[0].len() as int);
    if rest.len() == 0 {
        assert(s =~= parts[0]);
        assert(seq![s] =~= parts);
    } else {
        assert forall|i: int, j: int| 0 <= i < rest.len() && 0 <= j < rest[i].len() implies
            #[trigger] rest[i][j] != sep by {
            assert(parts[i + 1][j] != sep);
        }
        law_split_undoes_join(rest, sep);
        assert(s.take(parts[0].len() as int) =~= parts[0]);
        assert(s.skip(parts[0].len() as int + 1) =~= joined(rest, sep));
        assert(seq![parts[0]] + rest =~= parts);
    }
}

/// The pieces of a split hold no separator.
pub proof fn law_pieces_hold_no_separator(s: Seq<char>, sep: char)
    ensures
        free_of(split_at_each(s, sep), sep),
    decreases s.len(),
{
    lemma_first_index_bounds(s, sep);
    let i = first_index(s, sep) as int;
    if i < s.len() {
        let rest = split_at_each(s.skip(i + 1), sep);
        let parts = split_at_each(s, sep);
        law_pieces_hold_no_separator(s.skip(i + 1), sep);
        assert forall|k: int, j: int| 0 <= k < parts.len() && 0 <= j < parts[k].len() implies
            #[trigger] parts[k][j] != sep by {
            if k == 0 {
                assert(parts[0][j] == s[j]);
            } else {
                assert(parts[k] == rest[k - 1]);
                assert(rest[k - 1][j] != sep);
            }
        }
    }
}

/// Joining undoes splitting.
pub proof fn law_join_undoes_split(s: Seq<char>, sep: char)
    ensures
        split_at_each(s, sep).len() > 0,
        joined(split_at_each(s, sep), sep) == s,
    decreases s.len(),
{
    lemma_first_index_bounds(s, sep);
    let i = first_index(s, sep) as int;
    let parts = split_at_each(s, sep);
    if i >= s.len() {
        assert(parts.drop_first() =~= Seq::<Seq<char>>::empty());
        assert(joined(parts, sep) =~= s);
    } else {
        let t = s.skip(i + 1);
        law_join_undoes_split(t, sep);
        let rest = split_at_each(t, sep);
        assert(parts.drop_first() =~= rest);
        assert(joined_tail(rest, sep) =~= seq![sep] + joined(rest, sep));
        assert(joined(parts, sep) =~= s);
    }
}

/// Trimming takes off a prefix and a suffix of white space.
pub proof fn lemma_trimmed(s: Seq<char>) -> (r: (int, int))
    ensures
        0 <= r.0 <= r.1 <= s.len(),
        trimmed(s) == s.subrange(r.0, r.1),
        forall|i: int| 0 <= i < r.0 ==> white_space(#[trigger] s[i]),
        forall|i: int| r.1 <= i < s.len() ==> white_space(#[trigger] s[i]),
        r.0 < r.1 ==> !white_space(s[r.0]) && !white_space(s[r.1 - 1]),
        r.0 == r.1 ==> forall|i: int| 0 <= i < s.len() ==> white_space(#[trigger] s[i]),
{
    let k = lemma_trimmed_start(s);
    let t = s.skip(k);
    let l = lemma_trimmed_end(t);
    assert(t.take(l) =~= s.subrange(k, k + l));
    assert forall|i: int| k + l <= i < s.len() implies white_space(#[trigger] s[i]) by {
        assert(white_space(t[i - k]));
    }
    if l > 0 {
        assert(!white_space(t[l - 1]));
        if white_space(s[k]) {
            assert(k < s.len());
        }
    }
    (k, k + l)
}

proof fn lemma_trimmed_start(s: Seq<char>) -> (k: int)
    ensures
        0 <= k <= s.len(),
        trimmed_start(s) == s.skip(k),
        forall|i: int| 0 <= i < k ==> white_space(#[trigger] s[i]),
        k < s.len() ==> !white_space(s[k]),
    decreases s.len(),
{
    if s.len() > 0 && white_space(s[0]) {
        let t = s.drop_first();
        let k = lemma_trimmed_start(t);
        assert(t.skip(k) =~= s.skip(k + 1));
        assert forall|i: int| 0 <= i < k + 1 implies white_space(#[trigger] s[i]) by {
            if i > 0 {
                assert(white_space(t[i - 1]));
            }
        }
        k + 1
    } else {
        assert(s.skip(0) =~= s);
        0
    }
}

proof fn lemma_trimmed_end(s: Seq<char>) -> (l: int)
    ensures
        0 <= l <= s.len(),
        trimmed_end(s) == s.take(l),
        forall|i: int| l <= i < s.len() ==> white_space(#[trigger] s[i]),
        l > 0 ==> !white_space(s[l - 1]),
    decreases s.len(),
{
    if s.len() > 0 && white_space(s.last()) {
        let t = s.drop_last();
        let l = lemma_trimmed_end(t);
        assert(t.take(l) =~= s.take(l));
        assert forall|i: int| l <= i < s.len() implies white_space(#[trigger] s[i]) by {
            if i < s.len() - 1 {
                assert(white_space(t[i]));
            }
        }
        l
    } else {
        assert(s.take(s.len() as int) =~= s);
        s.len() as int
    }
}

/// Text that neither starts nor ends in white space is not changed by trimming.
pub proof fn lemma_trimmed_unchanged(s: Seq<char>)
    requires
        s.len() > 0 ==> !white_space(s[0]) && !white_space(s.last()),
    ensures
        trimmed(s) == s,
{
    let r = lemma_trimmed(s);
    if s.len() > 0 {
        if r.0 > 0 {
            assert(white_space(s[0]));
        }
        if r.1 < s.len() {
            assert(white_space(s[s.len() - 1]));
        }
    }
    assert(s.subrange(r.0, r.1) =~= s);
}

/// Trimming twice is trimming once.
pub proof fn law_trim_is_idempotent(s: Seq<char>)
    ensures
        trimmed(trimmed(s)) == trimmed(s),
{
    let r = lemma_trimmed(s);
    let t = trimmed(s);
    if t.len() > 0 {
        assert(t[0] == s[r.0]);
        assert(t.last() == s[r.1 - 1]);
    }
    lemma_trimmed_unchanged(t);
}

/// The case of ASCII letters does not outlive a change to upper case.
pub proof fn law_upper_forgets_case(s: Seq<char>)
    ensures
        uppered(uppered(s)) == uppered(s),
        uppered(lowered(s)) == uppered(s),
{
    assert forall|c: char| #![trigger upper(c)]
        upper(upper(c)) == upper(c) && upper(lower(c)) == upper(c) by {}
    assert(uppered(uppered(s)) =~= uppered(s));
    assert(uppered(lowered(s)) =~= uppered(s)) by {
        assert forall|i: int| 0 <= i < s.len() implies uppered(lowered(s))[i] == uppered(s)[i] by {
            assert(upper(lower(s[i])) == upper(s[i]));
        }
    }
}

/// White space is what Unicode calls so: the control characters from tab to carriage return, the
/// space, the next line, and the spaces and separators beyond ASCII.
pub proof fn law_white_space(c: char)
    ensures
        white_space(c) <==> (c == '\t' || c == '\n' || c == '\u{b}' || c == '\u{c}' || c == '\r'
            || c == ' ' || c == '\u{85}' || c == '\u{a0}' || c == '\u{1680}' || '\u{2000}' <= c
            <= '\u{200a}' || c == '\u{2028}' || c == '\u{2029}' || c == '\u{202f}' || c
            == '\u{205f}' || c == '\u{3000}'),
{
}

/// Trimming leaves what stands between white space in front and behind, and nothing of white space
/// alone.
pub proof fn law_trim_leaves_the_middle(front: Seq<char>, middle: Seq<char>, back: Seq<char>)
    requires
        forall|i: int| 0 <= i < front.len() ==> white_space(#[trigger] front[i]),
        forall|i: int| 0 <= i < back.len() ==> white_space(#[trigger] back[i]),
        middle.len() > 0 ==> !white_space(middle[0]) && !white_space(middle.last()),
    ensures
        trimmed(front + middle + back) == middle,
{
    let s = front + middle + back;
    let r = lemma_trimmed(s);
    if middle.len() == 0 {
        if r.0 < r.1 {
            assert(s[r.0] == front[r.0] || s[r.0] == back[r.0 - front.len()]);
            assert(false);
        }
        assert(trimmed(s) =~= middle);
    } else {
        let a = front.len() as int;
        let b = (front.len() + middle.len()) as int;
        assert(s[a] == middle[0]);
        assert(s[b - 1] == middle.last());
        if r.0 > a {
            assert(white_space(s[a]));
        }
        if r.1 < b {
            assert(white_space(s[b - 1]));
        }
        if r.0 < a {
            assert(s[r.0] == front[r.0]);
            assert(r.0 == r.1 || !white_space(s[r.0]));
        }
        if r.1 > b {
            assert(s[r.1 - 1] == back[r.1 - 1 - b]);
        }
        assert(s.subrange(a, b) =~= middle);
    }
}

/// Only the letters from a to z change their case: to the letter 32 places before, or the one that is
/// 32 places behind.
pub proof fn law_case_of_letters(c: char)
    ensures
        97 <= c as u32 <= 122 ==> upper(c) as u32 == c as u32 - 32 && lower(c) == c,
        65 <= c as u32 <= 90 ==> lower(c) as u32 == c as u32 + 32 && upper(c) == c,
        !(97 <= c as u32 <= 122) && !(65 <= c as u32 <= 90) ==> upper(c) == c && lower(c) == c,
{
}

/// The case of a text is that of its characters.
pub proof fn law_case_of_texts(s: Seq<char>, i: int)
    ensures
        uppered(s).len() == s.len(),
        lowered(s).len() == s.len(),
        0 <= i < s.len() ==> uppered(s)[i] == upper(s[i]) && lowered(s)[i] == lower(s[i]),
{
}

/// A text without a separator is one piece; what stands in front of a separator is a piece of its
/// own.
pub proof fn law_separators_part_pieces(piece: Seq<char>, rest: Seq<char>, sep: char)
    requires
        !piece.contains(sep),
    ensures
        split_at_each(piece, sep) == seq![piece],
        split_at_each(piece + seq![sep] + rest, sep) == seq![piece] + split_at_each(rest, sep),
{
    let s = piece + seq![sep] + rest;
    lemma_holds_none(piece, sep);
    lemma_first_index(piece, sep, piece.len() as int);
    assert forall|j: int| 0 <= j < piece.len() implies s[j] != sep by {
        assert(s[j] == piece[j]);
    }
    lemma_first_index(s, sep, piece.len() as int);
    assert(s.take(piece.len() as int) =~= piece);
    assert(s.skip(piece.len() as int + 1) =~= rest);
}

proof fn lemma_holds_none(s: Seq<char>, c: char)
    requires
        !s.contains(c),
    ensures
        forall|j: int| 0 <= j < s.len() ==> #[trigger] s[j] != c,
{
    assert forall|j: int| 0 <= j < s.len() implies #[trigger] s[j] != c by {
        assert(s.contains(s[j]));
    }
}

/// Joined pieces stand one after the other with a separator between neighbours.
pub proof fn law_join_adds_a_piece(parts: Seq<Seq<char>>, piece: Seq<char>, sep: char)
    ensures
        joined(Seq::empty(), sep) == Seq::<char>::empty(),
        joined(seq![piece], sep) == piece,
        parts.len() > 0 ==> joined(parts.push(piece), sep) == joined(parts, sep) + seq![sep]
            + piece,
{
    assert(seq![piece].drop_first() =~= Seq::<Seq<char>>::empty());
    assert(joined(seq![piece], sep) =~= piece);
    if parts.len() > 0 {
        lemma_joined_tail_push(parts.drop_first(), piece, sep);
        assert(parts.push(piece).drop_first() =~= parts.drop_first().push(piece));
        assert(joined(parts.push(piece), sep) =~= joined(parts, sep) + seq![sep] + piece);
    }
}

proof fn lemma_joined_tail_push(parts: Seq<Seq<char>>, piece: Seq<char>, sep: char)
    ensures
        joined_tail(parts.push(piece), sep) == joined_tail(parts, sep) + seq![sep] + piece,
    decreases parts.len(),
{
    let all = parts.push(piece);
    if parts.len() == 0 {
        assert(all.drop_first() =~= Seq::<Seq<char>>::empty());
        assert(joined_tail(all.drop_first(), sep) =~= Seq::<char>::empty());
        assert(joined_tail(all, sep) =~= joined_tail(parts, sep) + seq![sep] + piece);
    } else {
        lemma_joined_tail_push(parts.drop_first(), piece, sep);
        assert(all.drop_first() =~= parts.drop_first().push(piece));
        assert(all[0] == parts[0]);
        assert(joined_tail(all, sep) =~= joined_tail(parts, sep) + seq![sep] + piece);
    }
}

/// The first separator parts what stands in front of it from what stands behind it, and so does the
/// last one. A text without a separator is not parted.
pub proof fn law_parting_at_a_separator(a: Seq<char>, b: Seq<char>, sep: char)
    ensures
        !a.contains(sep) ==> split_first(a + seq![sep] + b, sep) == Some((a, b)),
        !b.contains(sep) ==> split_last(a + seq![sep] + b, sep) == Some((a, b)),
        !a.contains(sep) ==> split_first(a, sep) is None && split_last(a, sep) is None,
{
    let s = a + seq![sep] + b;
    assert(s.take(a.len() as int) =~= a);
    assert(s.skip(a.len() as int + 1) =~= b);
    if !a.contains(sep) {
        lemma_holds_none(a, sep);
        lemma_first_index(a, sep, a.len() as int);
        lemma_last_index(a, sep, -1);
        assert forall|j: int| 0 <= j < a.len() implies s[j] != sep by {
            assert(s[j] == a[j]);
        }
        lemma_first_index(s, sep, a.len() as int);
    }
    if !b.contains(sep) {
        lemma_holds_none(b, sep);
        assert forall|j: int| a.len() < j < s.len() implies s[j] != sep by {
            assert(s[j] == b[j - a.len() - 1]);
        }
        lemma_last_index(s, sep, a.len() as int);
    }
}

/// The views of texts are those texts, in order.
pub proof fn law_views_of_texts(slices: Seq<&str>, strings: Seq<String>, i: int)
    ensures
        views(slices).len() == slices.len(),
        0 <= i < slices.len() ==> views(slices)[i] == slices[i]@,
        string_views(strings).len() == strings.len(),
        0 <= i < strings.len() ==> string_views(strings)[i] == strings[i]@,
{
}

} // verus!
