//! Text on sequences of characters: trimming, splitting, joining, padding and
//! comparing strings.
use vstd::prelude::*;
use vstd::string::*;

verus! {

/// `String::push` of the standard library: the character goes to the end.
pub assume_specification[ String::push ](s: &mut String, c: char)
    ensures
        final(s)@ == old(s)@.push(c),
;

/// The characters with the Unicode property `White_Space`.
pub open spec fn is_space(c: char) -> bool {
    let n = c as u32;
    ||| 0x9 <= n <= 0xD
    ||| n == 0x20
    ||| n == 0x85
    ||| n == 0xA0
    ||| n == 0x1680
    ||| 0x2000 <= n <= 0x200A
    ||| n == 0x2028
    ||| n == 0x2029
    ||| n == 0x202F
    ||| n == 0x205F
    ||| n == 0x3000
}

/// `s` without its leading white space.
pub open spec fn trimmed_start(s: Seq<char>) -> Seq<char>
    decreases s.len(),
{
    if s.len() > 0 && is_space(s[0]) {
        trimmed_start(s.drop_first())
    } else {
        s
    }
}

/// `s` without its trailing characters that satisfy `drop`.
pub open spec fn trimmed_end_by(s: Seq<char>, drop: spec_fn(char) -> bool) -> Seq<char>
    decreases s.len(),
{
    if s.len() > 0 && drop(s.last()) {
        trimmed_end_by(s.drop_last(), drop)
    } else {
        s
    }
}

/// `s` without white space at either end.
pub open spec fn trimmed(s: Seq<char>) -> Seq<char> {
    trimmed_end_by(trimmed_start(s), |c: char| is_space(c))
}

/// The characters of `s`, one by one.
pub fn chars_of(s: &str) -> (r: Vec<char>)
    ensures
        r@ == s@,
{
    let mut v: Vec<char> = Vec::new();
    for c in it: s.chars()
        invariant
            it.seq() == s@,
            v@ == s@.subrange(0, it.index() as int),
    {
        proof {
            assert(s@.subrange(0, it.index() + 1) == s@.subrange(0, it.index() as int).push(c));
        }
        v.push(c);
    }
    assert(s@.subrange(0, s@.len() as int) == s@);
    v
}

/// Whether `c` is white space.
pub fn space(c: char) -> (r: bool)
    ensures
        r == is_space(c),
{
    let n: u32 = c as u32;
    (0x9 <= n && n <= 0xD) || n == 0x20 || n == 0x85 || n == 0xA0 || n == 0x1680
        || (0x2000 <= n && n <= 0x200A) || n == 0x2028 || n == 0x2029 || n == 0x202F
        || n == 0x205F || n == 0x3000
}

proof fn lemma_trimmed_start(s: Seq<char>, k: int)
    requires
        0 <= k <= s.len(),
        forall|i: int| 0 <= i < k ==> is_space(#[trigger] s[i]),
        k < s.len() ==> !is_space(s[k]),
    ensures
        trimmed_start(s) == s.subrange(k, s.len() as int),
    decreases s.len(),
{
    if k == 0 {
        assert(s.subrange(0, s.len() as int) == s);
    } else {
        let t = s.drop_first();
        assert forall|i: int| 0 <= i < k - 1 implies is_space(#[trigger] t[i]) by {
            assert(t[i] == s[i + 1]);
        }
        assert(is_space(s[0]));
        lemma_trimmed_start(t, k - 1);
        assert(t.subrange(k - 1, t.len() as int) == s.subrange(k, s.len() as int));
    }
}

proof fn lemma_trimmed_end(s: Seq<char>, drop: spec_fn(char) -> bool, k: int)
    requires
        0 <= k <= s.len(),
        forall|i: int| k <= i < s.len() ==> drop(#[trigger] s[i]),
        k > 0 ==> !drop(s[k - 1]),
    ensures
        trimmed_end_by(s, drop) == s.subrange(0, k),
    decreases s.len(),
{
    if k == s.len() {
        assert(s.subrange(0, k) == s);
    } else {
        let t = s.drop_last();
        assert(drop(s[s.len() - 1]));
        lemma_trimmed_end(t, drop, k);
        assert(t.subrange(0, k) == s.subrange(0, k));
    }
}

proof fn lemma_trimmed_start_first(s: Seq<char>)
    ensures
        trimmed_start(s).len() > 0 ==> !is_space(trimmed_start(s)[0]),
    decreases s.len(),
{
    if s.len() > 0 && is_space(s[0]) {
        lemma_trimmed_start_first(s.drop_first());
    }
}

proof fn lemma_trimmed_end_last(s: Seq<char>, drop: spec_fn(char) -> bool)
    ensures
        trimmed_end_by(s, drop).is_prefix_of(s),
        trimmed_end_by(s, drop).len() > 0 ==> !drop(trimmed_end_by(s, drop).last()),
    decreases s.len(),
{
    if s.len() > 0 && drop(s.last()) {
        lemma_trimmed_end_last(s.drop_last(), drop);
    }
}

/// What has been trimmed has nothing left to trim.
pub proof fn trimming_is_idempotent(s: Seq<char>)
    ensures
        trimmed(trimmed(s)) == trimmed(s),
{
    let drop = |c: char| is_space(c);
    let t = trimmed_start(s);
    let u = trimmed_end_by(t, drop);
    lemma_trimmed_start_first(s);
    lemma_trimmed_end_last(t, drop);
    if u.len() > 0 {
        assert(u[0] == t[0]);
    }
    assert(trimmed_start(u) == u);
    assert(trimmed_end_by(u, drop) == u);
}

/// `s` without white space at either end.
pub fn trim<'a>(s: &'a str) -> (r: &'a str)
    ensures
        r@ == trimmed(s@),
{
    let v: Vec<char> = chars_of(s);
    let mut from: usize = 0;
    while from < v.len() && space(v[from])
        invariant
            v@ == s@,
            from <= v.len(),
            forall|i: int| 0 <= i < from ==> is_space(#[trigger] s@[i]),
        decreases v.len() - from,
    {
        from = from + 1;
    }
    let mut to: usize = v.len();
    while from < to && space(v[to - 1])
        invariant
            v@ == s@,
            from <= to <= v.len(),
            forall|i: int| to <= i < v.len() ==> is_space(#[trigger] s@[i]),
        decreases to,
    {
        to = to - 1;
    }
    proof {
        lemma_trimmed_start(s@, from as int);
        let t = s@.subrange(from as int, s@.len() as int);
        let drop = |c: char| is_space(c);
        assert forall|i: int| to - from <= i < t.len() implies drop(#[trigger] t[i]) by {
            assert(t[i] == s@[i + from]);
        }
        lemma_trimmed_end(t, drop, to - from);
        assert(t.subrange(0, to - from) == s@.subrange(from as int, to as int));
    }
    s.substring_char(from, to)
}

/// `s` without its trailing characters `c`.
pub fn trim_end_char<'a>(s: &'a str, c: char) -> (r: &'a str)
    ensures
        r@ == trimmed_end_by(s@, |x: char| x == c),
{
    let v: Vec<char> = chars_of(s);
    let mut to: usize = v.len();
    while 0 < to && v[to - 1] == c
        invariant
            v@ == s@,
            to <= v.len(),
            forall|i: int| to <= i < v.len() ==> #[trigger] s@[i] == c,
        decreases to,
    {
        to = to - 1;
    }
    proof {
        lemma_trimmed_end(s@, |x: char| x == c, to as int);
    }
    s.substring_char(0, to)
}

/// Where `c` first stands in `s`, and the length of `s` where it does not.
pub open spec fn index_of_char(s: Seq<char>, c: char) -> nat
    decreases s.len(),
{
    if s.len() == 0 || s[0] == c {
        0
    } else {
        1 + index_of_char(s.drop_first(), c)
    }
}

/// What stands before the first `c` and what stands behind it.
pub open spec fn cut(s: Seq<char>, c: char) -> Option<(Seq<char>, Seq<char>)> {
    let k = index_of_char(s, c) as int;
    if k < s.len() {
        Some((s.subrange(0, k), s.subrange(k + 1, s.len() as int)))
    } else {
        None
    }
}

/// Nothing before the index equals the character, and the index is the
/// character's own or the end.
pub proof fn lemma_index_of_char(s: Seq<char>, c: char, k: int)
    requires
        0 <= k <= s.len(),
        forall|i: int| 0 <= i < k ==> #[trigger] s[i] != c,
        k < s.len() ==> s[k] == c,
    ensures
        index_of_char(s, c) == k,
    decreases s.len(),
{
    if k > 0 {
        assert(s[0] != c);
        let t = s.drop_first();
        assert forall|i: int| 0 <= i < k - 1 implies #[trigger] t[i] != c by {
            assert(t[i] == s[i + 1]);
        }
        lemma_index_of_char(t, c, k - 1);
    }
}

/// The index that `index_of_char` gives is at most the length; before it the
/// character does not occur, and at it, if it lies inside, it does.
pub proof fn lemma_index_of_char_is_first(s: Seq<char>, c: char)
    ensures
        index_of_char(s, c) <= s.len(),
        forall|i: int| 0 <= i < index_of_char(s, c) ==> #[trigger] s[i] != c,
        index_of_char(s, c) < s.len() ==> s[index_of_char(s, c) as int] == c,
    decreases s.len(),
{
    if s.len() > 0 && s[0] != c {
        let t = s.drop_first();
        lemma_index_of_char_is_first(t, c);
        assert forall|i: int| 0 <= i < index_of_char(s, c) implies #[trigger] s[i] != c by {
            if i > 0 {
                assert(t[i - 1] == s[i]);
            }
        }
    }
}

/// What stands before the first `c` and what stands behind it.
pub fn split_once<'a>(s: &'a str, c: char) -> (r: Option<(&'a str, &'a str)>)
    ensures
        match r {
            Some((a, b)) => cut(s@, c) == Some((a@, b@)),
            None => cut(s@, c) is None,
        },
{
    let v: Vec<char> = chars_of(s);
    let mut k: usize = 0;
    while k < v.len() && v[k] != c
        invariant
            v@ == s@,
            k <= v.len(),
            forall|i: int| 0 <= i < k ==> #[trigger] s@[i] != c,
        decreases v.len() - k,
    {
        k = k + 1;
    }
    proof {
        lemma_index_of_char(s@, c, k as int);
    }
    if k < v.len() {
        Some((s.substring_char(0, k), s.substring_char(k + 1, v.len())))
    } else {
        None
    }
}

/// The pieces of `s` between the occurrences of `c`.
pub open spec fn pieces(s: Seq<char>, c: char) -> Seq<Seq<char>>
    decreases s.len(),
{
    match cut(s, c) {
        Some((a, b)) => if b.len() < s.len() {
            seq![a] + pieces(b, c)
        } else {
            seq![s]
        },
        None => seq![s],
    }
}

/// The pieces of `s` between the occurrences of `c`.
pub fn split(s: &str, c: char) -> (r: Vec<String>)
    ensures
        r.deep_view() == pieces(s@, c),
{
    let mut out: Vec<String> = Vec::new();
    let mut rest: &str = s;
    proof {
        assert(out.deep_view() + pieces(rest@, c) =~= pieces(s@, c));
    }
    loop
        invariant
            out.deep_view() + pieces(rest@, c) == pieces(s@, c),
        decreases rest@.len(),
    {
        let ghost done = out.deep_view();
        match split_once(rest, c) {
            Some((a, b)) => {
                proof {
                    lemma_index_of_char_is_first(rest@, c);
                    assert(done + (seq![a@] + pieces(b@, c)) =~= done.push(a@) + pieces(b@, c));
                }
                out.push(a.to_string());
                assert(out.deep_view() =~= done.push(a@));
                rest = b;
            },
            None => {
                out.push(rest.to_string());
                assert(out.deep_view() =~= done + seq![rest@]);
                return out;
            },
        }
    }
}

/// `s` without one carriage return at its end.
pub open spec fn without_return(s: Seq<char>) -> Seq<char> {
    if s.len() > 0 && s.last() == '\r' {
        s.drop_last()
    } else {
        s
    }
}

/// The lines of `s`: each ends at a line feed, or a carriage return and a line
/// feed, which do not belong to it; the last may end at the end of `s`.
pub open spec fn lines_of(s: Seq<char>) -> Seq<Seq<char>>
    decreases s.len(),
{
    if s.len() == 0 {
        seq![]
    } else {
        match cut(s, '\n') {
            Some((a, b)) => if b.len() < s.len() {
                seq![without_return(a)] + lines_of(b)
            } else {
                seq![s]
            },
            None => seq![s],
        }
    }
}

/// The lines of `s`, without their line endings.
pub fn lines(s: &str) -> (r: Vec<String>)
    ensures
        r.deep_view() == lines_of(s@),
{
    let mut out: Vec<String> = Vec::new();
    let mut rest: &str = s;
    proof {
        assert(out.deep_view() + lines_of(rest@) =~= lines_of(s@));
    }
    while !rest.is_empty()
        invariant
            out.deep_view() + lines_of(rest@) == lines_of(s@),
        decreases rest@.len(),
    {
        let ghost done = out.deep_view();
        match split_once(rest, '\n') {
            Some((a, b)) => {
                let n: usize = a.unicode_len();
                let line: &str = if n > 0 && a.get_char(n - 1) == '\r' {
                    a.substring_char(0, n - 1)
                } else {
                    a
                };
                proof {
                    lemma_index_of_char_is_first(rest@, '\n');
                    assert(line@ == without_return(a@));
                    assert(done + (seq![line@] + lines_of(b@)) =~= done.push(line@)
                        + lines_of(b@));
                }
                out.push(line.to_string());
                assert(out.deep_view() =~= done.push(line@));
                rest = b;
            },
            None => {
                out.push(rest.to_string());
                assert(out.deep_view() =~= done + seq![rest@]);
                return out;
            },
        }
    }
    assert(out.deep_view() + lines_of(rest@) =~= out.deep_view());
    out
}

/// Puts a line at the end of a list.
pub fn add_line(list: &mut Vec<String>, line: &str)
    ensures
        final(list).deep_view() == old(list).deep_view().push(line@),
{
    let ghost before = list.deep_view();
    list.push(line.to_string());
    assert(list.deep_view() =~= before.push(line@));
}

/// The parts one behind the other, with `sep` between two of them.
pub open spec fn joined(parts: Seq<Seq<char>>, sep: Seq<char>) -> Seq<char>
    decreases parts.len(),
{
    if parts.len() == 0 {
        seq![]
    } else if parts.len() == 1 {
        parts[0]
    } else {
        joined(parts.drop_last(), sep) + sep + parts.last()
    }
}

/// The parts one behind the other, with `sep` between two of them.
pub fn join(parts: &Vec<String>, sep: &str) -> (r: String)
    ensures
        r@ == joined(parts.deep_view(), sep@),
{
    let mut out: String = String::new();
    let mut i: usize = 0;
    let ghost all = parts.deep_view();
    proof {
        assert(joined(all.subrange(0, 0), sep@) =~= out@);
    }
    while i < parts.len()
        invariant
            all == parts.deep_view(),
            i <= parts.len(),
            out@ == joined(all.subrange(0, i as int), sep@),
        decreases parts.len() - i,
    {
        proof {
            let next = all.subrange(0, i + 1);
            assert(next.drop_last() =~= all.subrange(0, i as int));
            assert(next.last() == parts[i as int]@);
        }
        if i > 0 {
            out.append(sep);
            out.append(parts[i].as_str());
        } else {
            out.append(parts[i].as_str());
            assert(out@ =~= parts[0]@);
        }
        i = i + 1;
    }
    assert(all.subrange(0, all.len() as int) =~= all);
    out
}

/// Joining from the front.
pub proof fn lemma_joined_front(a: Seq<char>, rest: Seq<Seq<char>>, sep: Seq<char>)
    requires
        rest.len() > 0,
    ensures
        joined(seq![a] + rest, sep) == a + sep + joined(rest, sep),
    decreases rest.len(),
{
    let all = seq![a] + rest;
    if rest.len() == 1 {
        assert(all.drop_last() =~= seq![a]);
        assert(joined(seq![a], sep) == a);
    } else {
        lemma_joined_front(a, rest.drop_last(), sep);
        assert(all.drop_last() =~= seq![a] + rest.drop_last());
        assert(all.last() == rest.last());
        assert(a + sep + joined(rest.drop_last(), sep) + sep + rest.last() =~= a + sep + (joined(
            rest.drop_last(),
            sep,
        ) + sep + rest.last()));
    }
}

/// Cutting at the first `c` a text that begins with a part without `c`.
pub proof fn lemma_cut_front(a: Seq<char>, c: char, b: Seq<char>)
    requires
        forall|i: int| 0 <= i < a.len() ==> #[trigger] a[i] != c,
    ensures
        cut(a + seq![c] + b, c) == Some((a, b)),
{
    let s = a + seq![c] + b;
    assert forall|i: int| 0 <= i < a.len() implies #[trigger] s[i] != c by {
        assert(s[i] == a[i]);
    }
    assert(s[a.len() as int] == c);
    lemma_index_of_char(s, c, a.len() as int);
    assert(s.subrange(0, a.len() as int) =~= a);
    assert(s.subrange(a.len() as int + 1, s.len() as int) =~= b);
}

/// The pieces of a joined list are the list, if it has a part and no part holds
/// the separator.
pub proof fn lemma_pieces_of_joined(parts: Seq<Seq<char>>, c: char)
    requires
        parts.len() > 0,
        forall|i: int, j: int|
            0 <= i < parts.len() && 0 <= j < parts[i].len() ==> #[trigger] parts[i][j] != c,
    ensures
        pieces(joined(parts, seq![c]), c) == parts,
    decreases parts.len(),
{
    let a = parts[0];
    if parts.len() == 1 {
        assert forall|i: int| 0 <= i < a.len() implies #[trigger] a[i] != c by {
            assert(parts[0][i] != c);
        }
        lemma_index_of_char(a, c, a.len() as int);
        assert(pieces(a, c) =~= seq![a]);
        assert(parts =~= seq![a]);
    } else {
        let rest = parts.drop_first();
        assert forall|i: int, j: int|
            0 <= i < rest.len() && 0 <= j < rest[i].len() implies #[trigger] rest[i][j] != c by {
            assert(parts[i + 1][j] != c);
        }
        assert forall|i: int| 0 <= i < a.len() implies #[trigger] a[i] != c by {
            assert(parts[0][i] != c);
        }
        lemma_pieces_of_joined(rest, c);
        assert(parts =~= seq![a] + rest);
        lemma_joined_front(a, rest, seq![c]);
        lemma_cut_front(a, c, joined(rest, seq![c]));
    }
}

/// Whether `s` begins with `prefix`.
pub fn starts_with(s: &str, prefix: &str) -> (r: bool)
    ensures
        r == prefix@.is_prefix_of(s@),
{
    let v: Vec<char> = chars_of(s);
    let p: Vec<char> = chars_of(prefix);
    if v.len() < p.len() {
        return false;
    }
    let mut i: usize = 0;
    while i < p.len()
        invariant
            v@ == s@,
            p@ == prefix@,
            i <= p.len() <= v.len(),
            forall|j: int| 0 <= j < i ==> v@[j] == p@[j],
        decreases p.len() - i,
    {
        if v[i] != p[i] {
            return false;
        }
        i = i + 1;
    }
    assert(p@ =~= v@.subrange(0, p@.len() as int));
    true
}

/// Whether the two strings hold the same characters.
pub fn same(a: &str, b: &str) -> (r: bool)
    ensures
        r == (a@ == b@),
{
    let r: bool = a.unicode_len() == b.unicode_len() && starts_with(a, b);
    proof {
        if r {
            assert(a@ =~= a@.subrange(0, b@.len() as int));
        } else if a@ == b@ {
            assert(a@ =~= a@.subrange(0, b@.len() as int));
        }
    }
    r
}

/// `s` with spaces before it up to a width of `width` characters.
pub open spec fn padded(s: Seq<char>, width: nat) -> Seq<char> {
    if s.len() < width {
        Seq::new((width - s.len()) as nat, |i: int| ' ') + s
    } else {
        s
    }
}

/// `s` with spaces before it up to a width of `width` characters.
pub fn pad_left(s: &str, width: usize) -> (r: String)
    ensures
        r@ == padded(s@, width as nat),
{
    let n: usize = s.unicode_len();
    let mut out: String = String::new();
    let mut k: usize = n;
    proof {
        assert(out@ =~= Seq::new(0, |i: int| ' '));
    }
    while k < width
        invariant
            n <= k,
            n < width ==> k <= width,
            n >= width ==> k == n,
            out@ == Seq::new((k - n) as nat, |i: int| ' '),
        decreases width - k,
    {
        out.push(' ');
        k = k + 1;
        assert(out@ =~= Seq::new((k - n) as nat, |i: int| ' '));
    }
    out.append(s);
    assert(out@ =~= padded(s@, width as nat));
    out
}

/// The order of strings by their characters' code points, the first difference
/// deciding: `a` is at most `b`.
pub open spec fn at_most(a: Seq<char>, b: Seq<char>) -> bool
    decreases a.len(),
{
    if a.len() == 0 {
        true
    } else if b.len() == 0 {
        false
    } else if a[0] == b[0] {
        at_most(a.drop_first(), b.drop_first())
    } else {
        (a[0] as u32) < (b[0] as u32)
    }
}

/// Whether `a` is at most `b` in the order of strings.
pub fn is_at_most(a: &str, b: &str) -> (r: bool)
    ensures
        r == at_most(a@, b@),
{
    let v: Vec<char> = chars_of(a);
    let w: Vec<char> = chars_of(b);
    let mut i: usize = 0;
    proof {
        assert(v@.skip(0) =~= v@);
        assert(w@.skip(0) =~= w@);
    }
    while i < v.len() && i < w.len() && v[i] == w[i]
        invariant
            v@ == a@,
            w@ == b@,
            i <= v.len(),
            i <= w.len(),
            at_most(a@, b@) == at_most(v@.skip(i as int), w@.skip(i as int)),
        decreases v.len() - i,
    {
        proof {
            assert(v@.skip(i as int).drop_first() =~= v@.skip(i + 1));
            assert(w@.skip(i as int).drop_first() =~= w@.skip(i + 1));
        }
        i = i + 1;
    }
    if i == v.len() {
        true
    } else if i == w.len() {
        false
    } else {
        (v[i] as u32) < (w[i] as u32)
    }
}

/// The character with an ASCII capital made small.
pub open spec fn small(c: char) -> char {
    if 'A' <= c <= 'Z' {
        ((c as u32 + 32) as u32) as char
    } else {
        c
    }
}

/// The two strings differ at most in the case of ASCII letters.
pub open spec fn equal_but_for_case(a: Seq<char>, b: Seq<char>) -> bool {
    &&& a.len() == b.len()
    &&& forall|i: int| 0 <= i < a.len() ==> small(#[trigger] a[i]) == small(b[i])
}

fn small_char(c: char) -> (r: char)
    ensures
        r == small(c),
{
    let n: u32 = c as u32;
    if 65 <= n && n <= 90 {
        (n as u8 + 32) as char
    } else {
        c
    }
}

/// Whether the two strings differ at most in the case of ASCII letters.
pub fn same_but_for_case(a: &str, b: &str) -> (r: bool)
    ensures
        r == equal_but_for_case(a@, b@),
{
    let v: Vec<char> = chars_of(a);
    let w: Vec<char> = chars_of(b);
    if v.len() != w.len() {
        return false;
    }
    let mut i: usize = 0;
    while i < v.len()
        invariant
            v@ == a@,
            w@ == b@,
            v.len() == w.len(),
            i <= v.len(),
            forall|j: int| 0 <= j < i ==> small(#[trigger] v@[j]) == small(w@[j]),
        decreases v.len() - i,
    {
        if small_char(v[i]) != small_char(w[i]) {
            assert(small(a@[i as int]) != small(b@[i as int]));
            return false;
        }
        i = i + 1;
    }
    true
}

/// The white space of Unicode, character by character.
pub proof fn white_space_is_known(c: char)
    ensures
        is_space(c) <==> seq![
            0x9u32,
            0xAu32,
            0xBu32,
            0xCu32,
            0xDu32,
            0x20u32,
            0x85u32,
            0xA0u32,
            0x1680u32,
            0x2000u32,
            0x2001u32,
            0x2002u32,
            0x2003u32,
            0x2004u32,
            0x2005u32,
            0x2006u32,
            0x2007u32,
            0x2008u32,
            0x2009u32,
            0x200Au32,
            0x2028u32,
            0x2029u32,
            0x202Fu32,
            0x205Fu32,
            0x3000u32,
        ].contains(c as u32),
{
    let all = seq![
        0x9u32,
        0xAu32,
        0xBu32,
        0xCu32,
        0xDu32,
        0x20u32,
        0x85u32,
        0xA0u32,
        0x1680u32,
        0x2000u32,
        0x2001u32,
        0x2002u32,
        0x2003u32,
        0x2004u32,
        0x2005u32,
        0x2006u32,
        0x2007u32,
        0x2008u32,
        0x2009u32,
        0x200Au32,
        0x2028u32,
        0x2029u32,
        0x202Fu32,
        0x205Fu32,
        0x3000u32,
    ];
    let n = c as u32;
    if is_space(c) {
        let k: int = if n <= 0xD {
            n - 0x9
        } else if n == 0x20 {
            5
        } else if n == 0x85 {
            6
        } else if n == 0xA0 {
            7
        } else if n == 0x1680 {
            8
        } else if n <= 0x200A {
            n - 0x2000 + 9
        } else if n == 0x2028 {
            20
        } else if n == 0x2029 {
            21
        } else if n == 0x202F {
            22
        } else if n == 0x205F {
            23
        } else {
            24
        };
        assert(all[k] == n);
    }
}

/// Every character of `s` is white space.
pub open spec fn all_space(s: Seq<char>) -> bool {
    forall|i: int| 0 <= i < s.len() ==> is_space(#[trigger] s[i])
}

/// Trimming takes away the white space on both sides of a text and nothing of
/// the text; of white space alone nothing is left.
pub proof fn trimming_takes_white_space(a: Seq<char>, s: Seq<char>, b: Seq<char>)
    requires
        all_space(a),
        all_space(b),
        s.len() > 0 ==> !is_space(s[0]) && !is_space(s.last()),
    ensures
        trimmed(a + s + b) == s,
{
    let t = a + s + b;
    let drop = |c: char| is_space(c);
    if s.len() == 0 {
        assert forall|i: int| 0 <= i < t.len() implies is_space(#[trigger] t[i]) by {
            if i < a.len() {
                assert(t[i] == a[i]);
            } else {
                assert(t[i] == b[i - a.len()]);
            }
        }
        lemma_trimmed_start(t, t.len() as int);
        assert(trimmed_start(t) =~= seq![]);
        assert(trimmed(t) =~= s);
    } else {
        assert forall|i: int| 0 <= i < a.len() implies is_space(#[trigger] t[i]) by {
            assert(t[i] == a[i]);
        }
        assert(t[a.len() as int] == s[0]);
        lemma_trimmed_start(t, a.len() as int);
        let u = s + b;
        assert(t.subrange(a.len() as int, t.len() as int) =~= u);
        assert forall|i: int| s.len() <= i < u.len() implies drop(#[trigger] u[i]) by {
            assert(u[i] == b[i - s.len()]);
        }
        assert(u[s.len() - 1] == s.last());
        lemma_trimmed_end(u, drop, s.len() as int);
        assert(u.subrange(0, s.len() as int) =~= s);
    }
}

/// What is cut at a character is put together again by it, and the part before
/// it does not hold it. Nothing is cut where the character does not stand.
pub proof fn cutting_finds_the_first(s: Seq<char>, c: char)
    ensures
        match cut(s, c) {
            Some((a, b)) => s == a + seq![c] + b && !a.contains(c),
            None => !s.contains(c),
        },
{
    lemma_index_of_char_is_first(s, c);
    let k = index_of_char(s, c) as int;
    if k < s.len() {
        let (a, b) = cut(s, c).unwrap();
        assert(s =~= a + seq![c] + b);
        assert forall|i: int| 0 <= i < a.len() implies #[trigger] a[i] != c by {
            assert(a[i] == s[i]);
        }
    }
}

/// The pieces of a text, joined by the character at which it was split, are the
/// text, and no piece holds the character.
pub proof fn joining_undoes_splitting(s: Seq<char>, c: char)
    ensures
        joined(pieces(s, c), seq![c]) == s,
        pieces(s, c).len() > 0,
        forall|i: int| 0 <= i < pieces(s, c).len() ==> !(#[trigger] pieces(s, c)[i]).contains(c),
    decreases s.len(),
{
    cutting_finds_the_first(s, c);
    match cut(s, c) {
        Some((a, b)) => {
            joining_undoes_splitting(b, c);
            let rest = pieces(b, c);
            lemma_joined_front(a, rest, seq![c]);
            assert forall|i: int| 0 <= i < pieces(s, c).len() implies !(#[trigger] pieces(
                s,
                c,
            )[i]).contains(c) by {
                if i > 0 {
                    assert(pieces(s, c)[i] == rest[i - 1]);
                }
            }
        },
        None => {
            assert(joined(seq![s], seq![c]) == s);
        },
    }
}

/// Nothing joined is nothing, and one part joined is that part.
pub proof fn joining_one_part(part: Seq<char>, sep: Seq<char>)
    ensures
        joined(seq![], sep) == Seq::<char>::empty(),
        joined(seq![part], sep) == part,
{
}

/// The lines, each with an ending behind it.
pub open spec fn with_endings(list: Seq<Seq<char>>, ending: Seq<char>) -> Seq<char>
    decreases list.len(),
{
    if list.len() == 0 {
        seq![]
    } else {
        list[0] + ending + with_endings(list.drop_first(), ending)
    }
}

/// The text can be a line: no line feed is in it, and no carriage return at its
/// end.
pub open spec fn is_line(s: Seq<char>) -> bool {
    !s.contains('\n') && (s.len() > 0 ==> s.last() != '\r')
}

/// Lines with line endings behind them are found again, however many they are,
/// and then those of what follows.
pub proof fn lines_are_found(list: Seq<Seq<char>>, ending: Seq<char>, rest: Seq<char>)
    requires
        ending == seq!['\n'] || ending == seq!['\r', '\n'],
        forall|i: int| 0 <= i < list.len() ==> is_line(#[trigger] list[i]),
    ensures
        lines_of(with_endings(list, ending) + rest) == list + lines_of(rest),
    decreases list.len(),
{
    let s = with_endings(list, ending) + rest;
    if list.len() == 0 {
        assert(s =~= rest);
        assert(list + lines_of(rest) =~= lines_of(rest));
    } else {
        let tail = list.drop_first();
        assert forall|i: int| 0 <= i < tail.len() implies is_line(#[trigger] tail[i]) by {
            assert(tail[i] == list[i + 1]);
        }
        lines_are_found(tail, ending, rest);
        let line = list[0];
        assert(is_line(line));
        let behind = with_endings(tail, ending) + rest;
        let a = if ending.len() == 1 {
            line
        } else {
            line.push('\r')
        };
        assert forall|i: int| 0 <= i < a.len() implies #[trigger] a[i] != '\n' by {
            if i < line.len() {
                assert(line.contains(line[i]));
            }
        }
        assert(s =~= a + seq!['\n'] + behind);
        lemma_cut_front(a, '\n', behind);
        assert(without_return(a) =~= line);
        assert(seq![line] + (tail + lines_of(rest)) =~= list + lines_of(rest));
    }
}

/// A text without a line feed is a line of its own, unless it is empty.
pub proof fn last_line_needs_no_ending(s: Seq<char>)
    requires
        !s.contains('\n'),
    ensures
        lines_of(s) == (if s.len() == 0 {
            Seq::<Seq<char>>::empty()
        } else {
            seq![s]
        }),
{
    cutting_finds_the_first(s, '\n');
    if cut(s, '\n') is Some {
        let (a, b) = cut(s, '\n').unwrap();
        assert(s[a.len() as int] == '\n');
        assert(s.contains('\n'));
    }
}

/// A padded text is as wide as was asked for, or as the text where this is
/// wider; it ends with the text, and before it stand spaces only.
pub proof fn padding_stands_before(s: Seq<char>, width: nat)
    ensures
        padded(s, width).len() == (if s.len() < width {
            width
        } else {
            s.len()
        }),
        padded(s, width).skip(padded(s, width).len() - s.len()) == s,
        forall|i: int|
            0 <= i < padded(s, width).len() - s.len() ==> #[trigger] padded(s, width)[i] == ' ',
{
    assert(padded(s, width).skip(padded(s, width).len() - s.len()) =~= s);
}

proof fn lemma_codes_differ(x: char, y: char)
    ensures
        x != y ==> (x as u32) < (y as u32) || (y as u32) < (x as u32),
{
}

/// The order of strings is total, and only equal strings stand at one place.
pub proof fn strings_are_ordered(a: Seq<char>, b: Seq<char>)
    ensures
        at_most(a, b) || at_most(b, a),
        at_most(a, b) && at_most(b, a) <==> a == b,
    decreases a.len(),
{
    if a.len() > 0 && b.len() > 0 {
        strings_are_ordered(a.drop_first(), b.drop_first());
        lemma_codes_differ(a[0], b[0]);
        if a[0] == b[0] && a.drop_first() == b.drop_first() {
            assert(a =~= seq![a[0]] + a.drop_first());
            assert(b =~= seq![b[0]] + b.drop_first());
        }
    } else if a.len() == 0 && b.len() == 0 {
        assert(a =~= b);
    }
}

/// The order of strings is transitive.
pub proof fn string_order_is_transitive(a: Seq<char>, b: Seq<char>, c: Seq<char>)
    requires
        at_most(a, b),
        at_most(b, c),
    ensures
        at_most(a, c),
    decreases a.len(),
{
    if a.len() > 0 && b.len() > 0 && c.len() > 0 && a[0] == b[0] && b[0] == c[0] {
        string_order_is_transitive(a.drop_first(), b.drop_first(), c.drop_first());
    }
}

/// The first difference decides the order, whatever follows it; a string is at
/// most those that it begins.
pub proof fn first_difference_decides(
    front: Seq<char>,
    x: char,
    y: char,
    a: Seq<char>,
    b: Seq<char>,
)
    requires
        (x as u32) < (y as u32),
    ensures
        at_most(front + seq![x] + a, front + seq![y] + b),
        !at_most(front + seq![y] + b, front + seq![x] + a),
        at_most(front, front + b),
    decreases front.len(),
{
    let s = front + seq![x] + a;
    let t = front + seq![y] + b;
    if front.len() == 0 {
        assert(s[0] == x && t[0] == y);
    } else {
        let rest = front.drop_first();
        first_difference_decides(rest, x, y, a, b);
        assert(s.drop_first() =~= rest + seq![x] + a);
        assert(t.drop_first() =~= rest + seq![y] + b);
        assert((front + b).drop_first() =~= rest + b);
    }
}

/// Case does not matter for ASCII letters and matters for nothing else: the
/// strings are as long as each other, and where they differ one has a capital
/// and the other the same letter small.
pub proof fn only_case_may_differ(a: Seq<char>, b: Seq<char>)
    ensures
        equal_but_for_case(a, b) <==> a.len() == b.len() && forall|i: int|
            0 <= i < a.len() ==> {
                ||| #[trigger] a[i] == b[i]
                ||| 'A' <= a[i] <= 'Z' && a[i] as u32 + 32 == b[i] as u32
                ||| 'A' <= b[i] <= 'Z' && b[i] as u32 + 32 == a[i] as u32
            },
{
    if equal_but_for_case(a, b) {
        assert forall|i: int| 0 <= i < a.len() implies {
            ||| #[trigger] a[i] == b[i]
            ||| 'A' <= a[i] <= 'Z' && a[i] as u32 + 32 == b[i] as u32
            ||| 'A' <= b[i] <= 'Z' && b[i] as u32 + 32 == a[i] as u32
        } by {
            assert(small(a[i]) == small(b[i]));
        }
    }
}

/// Two lists, joined one behind the other with the separator between them, are
/// the joined whole.
pub proof fn lemma_joined_both(a: Seq<Seq<char>>, b: Seq<Seq<char>>, sep: Seq<char>)
    requires
        a.len() > 0,
        b.len() > 0,
    ensures
        joined(a + b, sep) == joined(a, sep) + sep + joined(b, sep),
    decreases b.len(),
{
    let all = a + b;
    assert(all.last() == b.last());
    assert(all.drop_last() =~= a + b.drop_last());
    if b.len() == 1 {
        assert(all.drop_last() =~= a);
        assert(b.drop_last() =~= seq![]);
        assert(joined(b, sep) =~= b[0]);
    } else {
        lemma_joined_both(a, b.drop_last(), sep);
        assert(joined(all, sep) =~= joined(a, sep) + sep + joined(b, sep));
    }
}

/// Nothing is left of a text by trimming exactly where it is all white space.
pub proof fn only_white_space_trims_to_nothing(s: Seq<char>)
    ensures
        trimmed(s).len() == 0 <==> all_space(s),
{
    let drop = |c: char| is_space(c);
    if all_space(s) {
        trimming_takes_white_space(s, seq![], seq![]);
        assert(s + seq![] + seq![] =~= s);
    } else {
        lemma_trimmed_start_first(s);
        let t = trimmed_start(s);
        if t.len() == 0 {
            lemma_trimmed_start_empty(s);
        }
        if trimmed_end_by(t, drop).len() == 0 {
            lemma_trimmed_end_empty(t, drop);
            assert(drop(t[0]));
        }
    }
}

proof fn lemma_trimmed_start_empty(s: Seq<char>)
    requires
        trimmed_start(s).len() == 0,
    ensures
        all_space(s),
    decreases s.len(),
{
    if s.len() > 0 {
        let t = s.drop_first();
        lemma_trimmed_start_empty(t);
        assert forall|i: int| 0 <= i < s.len() implies is_space(#[trigger] s[i]) by {
            if i > 0 {
                assert(t[i - 1] == s[i]);
            }
        }
    }
}

proof fn lemma_trimmed_end_empty(s: Seq<char>, drop: spec_fn(char) -> bool)
    requires
        trimmed_end_by(s, drop).len() == 0,
    ensures
        forall|i: int| 0 <= i < s.len() ==> drop(#[trigger] s[i]),
    decreases s.len(),
{
    if s.len() > 0 {
        let t = s.drop_last();
        lemma_trimmed_end_empty(t, drop);
        assert forall|i: int| 0 <= i < s.len() implies drop(#[trigger] s[i]) by {
            if i < t.len() {
                assert(t[i] == s[i]);
            }
        }
    }
}

} // verus!
