//! Character-level helpers: digits, whitespace, padding, and conversion
//! between strings and character vectors.
//!
//! All table rendering and counter parsing works over `Vec<char>` with
//! `Seq<char>` as its mathematical model; strings enter and leave only at the
//! public boundary.

use vstd::prelude::*;

verus! {

/// ASCII whitespace, the separators that appear in counter-source text.
pub open spec fn is_space(c: char) -> bool {
    c == ' ' || c == '\t' || c == '\n' || c == '\r' || c == '\u{b}' || c == '\u{c}'
}

/// ASCII decimal digit.
pub open spec fn is_digit(c: char) -> bool {
    48 <= (c as u32) && (c as u32) <= 57
}

/// Numeric value of an ASCII decimal digit.
pub open spec fn digit_val(c: char) -> nat
    recommends
        is_digit(c),
{
    ((c as u32) - 48) as nat
}

/// The ASCII digit character for a value below ten.
pub open spec fn digit_char(d: nat) -> char
    recommends
        d < 10,
{
    (((d + 48) as u8) as char)
}

/// Classifies a character as an ASCII digit, giving its value.
pub fn digit_of(c: char) -> (r: Option<u8>)
    ensures
        match r {
            Some(d) => is_digit(c) && d < 10 && d as nat == digit_val(c),
            None => !is_digit(c),
        },
{
    let u = c as u32;
    if 48 <= u && u <= 57 {
        Some((u - 48) as u8)
    } else {
        None
    }
}

/// The digit character for a value below ten.
pub fn char_of_digit(d: u8) -> (c: char)
    requires
        d < 10,
    ensures
        c == digit_char(d as nat),
{
    (48 + d) as char
}

/// Tests a character for ASCII whitespace.
pub fn space_at(c: char) -> (r: bool)
    ensures
        r == is_space(c),
{
    c == ' ' || c == '\t' || c == '\n' || c == '\r' || c == '\u{b}' || c == '\u{c}'
}

/// A run of `n` spaces.
pub open spec fn spaces(n: nat) -> Seq<char> {
    Seq::new(n, |i: int| ' ')
}

/// Right-aligns `s` in a field of width `w` (unchanged when already wider).
pub open spec fn pad_left(s: Seq<char>, w: nat) -> Seq<char> {
    if s.len() >= w {
        s
    } else {
        spaces((w - s.len()) as nat) + s
    }
}

/// Centers `s` in a field of width `w`, extra space going to the right
/// (unchanged when already wider).
pub open spec fn center(s: Seq<char>, w: nat) -> Seq<char> {
    if s.len() >= w {
        s
    } else {
        let total = (w - s.len()) as nat;
        spaces(total / 2) + s + spaces((total - total / 2) as nat)
    }
}

/// Appends `n` spaces to `out`.
pub fn push_spaces(out: &mut Vec<char>, n: usize)
    ensures
        final(out)@ == old(out)@ + spaces(n as nat),
{
    let mut i: usize = 0;
    while i < n
        invariant
            i <= n,
            out@ == old(out)@ + spaces(i as nat),
        decreases n - i,
    {
        out.push(' ');
        proof {
            assert(spaces((i + 1) as nat) =~= spaces(i as nat).push(' '));
        }
        i += 1;
    }
    proof {
        assert(out@ =~= old(out)@ + spaces(n as nat));
    }
}

/// The decimal digits of `n`, most significant first, no leading zeros
/// (a single `0` for zero).
pub open spec fn dec_digits(n: nat) -> Seq<char>
    decreases n,
{
    if n < 10 {
        seq![digit_char(n)]
    } else {
        dec_digits(n / 10).push(digit_char(n % 10))
    }
}

/// Appends the decimal digits of `n` to `out`.
pub fn push_u64_digits(out: &mut Vec<char>, n: u64)
    ensures
        final(out)@ == old(out)@ + dec_digits(n as nat),
    decreases n,
{
    if n < 10 {
        out.push(char_of_digit(n as u8));
        proof {
            assert(out@ =~= old(out)@ + dec_digits(n as nat));
        }
    } else {
        push_u64_digits(out, n / 10);
        out.push(char_of_digit((n % 10) as u8));
        proof {
            assert(out@ =~= old(out)@ + dec_digits(n as nat));
        }
    }
}

/// Appends all characters of `piece` to `out`.
pub fn push_all(out: &mut Vec<char>, piece: &Vec<char>)
    ensures
        final(out)@ == old(out)@ + piece@,
{
    let n = piece.len();
    let mut i: usize = 0;
    while i < n
        invariant
            i <= n,
            n == piece@.len(),
            out@ == old(out)@ + piece@.take(i as int),
        decreases n - i,
    {
        out.push(piece[i]);
        proof {
            assert(piece@.take((i + 1) as int) =~= piece@.take(i as int).push(piece@[i as int]));
        }
        i += 1;
    }
    proof {
        assert(old(out)@ + piece@.take(n as int) =~= old(out)@ + piece@);
    }
}

/// Appends `piece` right-aligned in a field of the given width.
pub fn push_padded(out: &mut Vec<char>, piece: &Vec<char>, width: usize)
    ensures
        final(out)@ == old(out)@ + pad_left(piece@, width as nat),
{
    let n = piece.len();
    if n < width {
        push_spaces(out, width - n);
    }
    push_all(out, piece);
    proof {
        assert(out@ =~= old(out)@ + pad_left(piece@, width as nat));
    }
}

/// Appends `piece` centered in a field of the given width, extra space on
/// the right.
pub fn push_centered(out: &mut Vec<char>, piece: &Vec<char>, width: usize)
    ensures
        final(out)@ == old(out)@ + center(piece@, width as nat),
{
    let n = piece.len();
    if n < width {
        let total = width - n;
        push_spaces(out, total / 2);
        push_all(out, piece);
        push_spaces(out, total - total / 2);
        proof {
            assert(out@ =~= old(out)@ + center(piece@, width as nat));
        }
    } else {
        push_all(out, piece);
    }
}

/// The characters of a string slice, in order.
pub fn chars_of(s: &str) -> (v: Vec<char>)
    ensures
        v@ == s@,
{
    let n = s.unicode_len();
    let mut v: Vec<char> = Vec::new();
    let mut i: usize = 0;
    while i < n
        invariant
            i <= n,
            n == s@.len(),
            v@ == s@.take(i as int),
        decreases n - i,
    {
        v.push(s.get_char(i));
        proof {
            assert(s@.take((i + 1) as int) =~= s@.take(i as int).push(s@[i as int]));
        }
        i += 1;
    }
    proof {
        assert(s@.take(n as int) =~= s@);
    }
    v
}

/// Copies the characters of `s` between positions `a` and `b`.
pub fn copy_range(s: &Vec<char>, a: usize, b: usize) -> (r: Vec<char>)
    requires
        a <= b <= s@.len(),
    ensures
        r@ == s@.subrange(a as int, b as int),
{
    let mut r: Vec<char> = Vec::new();
    let mut i: usize = a;
    while i < b
        invariant
            a <= i <= b <= s@.len(),
            r@ == s@.subrange(a as int, i as int),
        decreases b - i,
    {
        r.push(s[i]);
        proof {
            assert(s@.subrange(a as int, (i + 1) as int) =~= s@.subrange(a as int, i as int).push(
                s@[i as int],
            ));
        }
        i += 1;
    }
    r
}

/// What is left of `s` after removing leading whitespace.
pub open spec fn trim_start_rec(s: Seq<char>) -> Seq<char>
    decreases s.len(),
{
    if s.len() > 0 && is_space(s[0]) {
        trim_start_rec(s.drop_first())
    } else {
        s
    }
}

/// What is left of `s` after removing trailing whitespace.
pub open spec fn trim_end_rec(s: Seq<char>) -> Seq<char>
    decreases s.len(),
{
    if s.len() > 0 && is_space(s.last()) {
        trim_end_rec(s.drop_last())
    } else {
        s
    }
}

/// `s` without leading and trailing whitespace.
pub open spec fn spec_trim(s: Seq<char>) -> Seq<char> {
    trim_end_rec(trim_start_rec(s))
}

proof fn lemma_trim_start_at(s: Seq<char>, k: int)
    requires
        0 <= k <= s.len(),
        forall|j: int| 0 <= j < k ==> is_space(s[j]),
        k < s.len() ==> !is_space(s[k]),
    ensures
        trim_start_rec(s) == s.subrange(k, s.len() as int),
    decreases k,
{
    if k == 0 {
        assert(s.subrange(0, s.len() as int) =~= s);
    } else {
        let t = s.drop_first();
        assert(forall|j: int| 0 <= j < k - 1 ==> is_space(t[j]));
        lemma_trim_start_at(t, k - 1);
        assert(t.subrange(k - 1, t.len() as int) =~= s.subrange(k, s.len() as int));
    }
}

proof fn lemma_trim_end_at(s: Seq<char>, k: int)
    requires
        0 <= k <= s.len(),
        forall|j: int| k <= j < s.len() ==> is_space(s[j]),
        k > 0 ==> !is_space(s[k - 1]),
    ensures
        trim_end_rec(s) == s.subrange(0, k),
    decreases s.len() - k,
{
    if k == s.len() {
        assert(s.subrange(0, s.len() as int) =~= s);
    } else {
        let t = s.drop_last();
        assert(is_space(s.last()));
        lemma_trim_end_at(t, k);
        assert(t.subrange(0, k) =~= s.subrange(0, k));
    }
}

/// Removes leading and trailing whitespace.
pub fn trim_chars(s: &Vec<char>) -> (r: Vec<char>)
    ensures
        r@ == spec_trim(s@),
{
    let n = s.len();
    let mut lo: usize = 0;
    while lo < n && space_at(s[lo])
        invariant
            lo <= n,
            n == s@.len(),
            forall|j: int| 0 <= j < lo ==> is_space(s@[j]),
        decreases n - lo,
    {
        lo += 1;
    }
    proof {
        lemma_trim_start_at(s@, lo as int);
    }
    let ghost mid: Seq<char> = s@.subrange(lo as int, n as int);
    let mut hi: usize = n;
    while hi > lo && space_at(s[hi - 1])
        invariant
            lo <= hi <= n,
            n == s@.len(),
            forall|j: int| hi <= j < n ==> is_space(s@[j]),
        decreases hi,
    {
        hi -= 1;
    }
    proof {
        assert(forall|j: int| hi - lo <= j < mid.len() ==> is_space(mid[j]));
        lemma_trim_end_at(mid, hi - lo);
    }
    let mut r: Vec<char> = Vec::new();
    let mut i: usize = lo;
    while i < hi
        invariant
            lo <= i <= hi <= n,
            n == s@.len(),
            r@ == s@.subrange(lo as int, i as int),
        decreases hi - i,
    {
        r.push(s[i]);
        proof {
            assert(s@.subrange(lo as int, (i + 1) as int) =~= s@.subrange(lo as int, i as int).push(
                s@[i as int],
            ));
        }
        i += 1;
    }
    proof {
        assert(mid.subrange(0, hi - lo) =~= s@.subrange(lo as int, hi as int));
    }
    r
}

/// Whether the name begins with the loopback prefix `lo`.
pub open spec fn spec_starts_with_lo(s: Seq<char>) -> bool {
    s.len() >= 2 && s[0] == 'l' && s[1] == 'o'
}

/// Tests for the loopback prefix `lo`.
pub fn starts_with_lo(s: &Vec<char>) -> (r: bool)
    ensures
        r == spec_starts_with_lo(s@),
{
    s.len() >= 2 && s[0] == 'l' && s[1] == 'o'
}

/// The position of the first occurrence of `c` in `s`, if any.
pub open spec fn find_char(s: Seq<char>, c: char) -> Option<nat>
    decreases s.len(),
{
    if s.len() == 0 {
        None
    } else if s[0] == c {
        Some(0)
    } else {
        match find_char(s.drop_first(), c) {
            Some(i) => Some((i + 1) as nat),
            None => None,
        }
    }
}

/// `find_char` finds the first occurrence: a hit is a match with none before
/// it, a miss means no occurrence at all.
pub proof fn lemma_find_char(s: Seq<char>, c: char)
    ensures
        match find_char(s, c) {
            Some(i) => i < s.len() && s[i as int] == c && forall|j: int| 0 <= j < i ==> s[j] != c,
            None => forall|j: int| 0 <= j < s.len() ==> s[j] != c,
        },
    decreases s.len(),
{
    if s.len() > 0 && s[0] != c {
        let t = s.drop_first();
        lemma_find_char(t, c);
        match find_char(t, c) {
            Some(i) => {
                assert forall|j: int| 0 <= j < i + 1 implies s[j] != c by {
                    if j > 0 {
                        assert(t[j - 1] == s[j]);
                    }
                }
            },
            None => {
                assert forall|j: int| 0 <= j < s.len() implies s[j] != c by {
                    if j > 0 {
                        assert(t[j - 1] == s[j]);
                    }
                }
            },
        }
    }
}

/// Finds the first occurrence of `c`.
pub fn find_char_at(s: &Vec<char>, c: char) -> (r: Option<usize>)
    ensures
        match r {
            Some(i) => find_char(s@, c) == Some(i as nat),
            None => find_char(s@, c) is None,
        },
{
    let n = s.len();
    let mut i: usize = 0;
    while i < n
        invariant
            i <= n,
            n == s@.len(),
            forall|j: int| 0 <= j < i ==> s@[j] != c,
        decreases n - i,
    {
        if s[i] == c {
            proof {
                lemma_find_char(s@, c);
            }
            return Some(i);
        }
        i += 1;
    }
    proof {
        lemma_find_char(s@, c);
    }
    None
}

/// Whether `p` occurs in `s` at position `i`.
pub open spec fn matches_at(s: Seq<char>, i: int, p: Seq<char>) -> bool {
    0 <= i && i + p.len() <= s.len() && s.subrange(i, i + p.len() as int) == p
}

/// The position of the first occurrence of `p` as a contiguous part of `s`.
pub open spec fn find_sub(s: Seq<char>, p: Seq<char>) -> Option<nat>
    decreases s.len(),
{
    if p.len() == 0 {
        Some(0)
    } else if s.len() < p.len() {
        None
    } else if s.subrange(0, p.len() as int) == p {
        Some(0)
    } else {
        match find_sub(s.drop_first(), p) {
            Some(i) => Some((i + 1) as nat),
            None => None,
        }
    }
}

/// `find_sub` finds the first occurrence: a hit is a match with none before
/// it, a miss means no occurrence at all.
pub proof fn lemma_find_sub(s: Seq<char>, p: Seq<char>)
    ensures
        match find_sub(s, p) {
            Some(i) => matches_at(s, i as int, p) && forall|j: int|
                0 <= j < i ==> !matches_at(s, j, p),
            None => forall|j: int| 0 <= j <= s.len() ==> !matches_at(s, j, p),
        },
    decreases s.len(),
{
    if p.len() == 0 {
        assert(s.subrange(0, 0) =~= p);
    } else if s.len() < p.len() {
    } else if s.subrange(0, p.len() as int) == p {
    } else {
        let t = s.drop_first();
        lemma_find_sub(t, p);
        assert forall|j: int| 1 <= j && j + p.len() <= s.len() implies matches_at(s, j, p)
            == matches_at(t, j - 1, p) by {
            assert(t.subrange(j - 1, j - 1 + p.len() as int) =~= s.subrange(
                j,
                j + p.len() as int,
            ));
        }
        match find_sub(t, p) {
            Some(i) => {
                assert(matches_at(t, i as int, p));
                assert(matches_at(s, i as int + 1, p));
            },
            None => {},
        }
    }
}

/// Finds the first occurrence of `p` as a contiguous part of `s`.
pub fn find_sub_at(s: &Vec<char>, p: &Vec<char>) -> (r: Option<usize>)
    ensures
        match r {
            Some(i) => find_sub(s@, p@) == Some(i as nat),
            None => find_sub(s@, p@) is None,
        },
{
    proof {
        lemma_find_sub(s@, p@);
    }
    let n = s.len();
    let m = p.len();
    if m == 0 {
        return Some(0);
    }
    if m > n {
        return None;
    }
    let mut i: usize = 0;
    while i <= n - m
        invariant
            1 <= m <= n,
            i <= n - m + 1,
            n == s@.len(),
            m == p@.len(),
            forall|k: int| 0 <= k < i ==> !matches_at(s@, k, p@),
        decreases n - i,
    {
        let mut j: usize = 0;
        let mut all_eq: bool = true;
        while j < m
            invariant
                i + m <= n,
                n == s@.len(),
                m == p@.len(),
                j <= m,
                all_eq ==> forall|l: int| 0 <= l < j ==> s@[i + l] == p@[l],
                !all_eq ==> !matches_at(s@, i as int, p@),
            decreases m - j,
        {
            if s[i + j] != p[j] {
                proof {
                    if matches_at(s@, i as int, p@) {
                        assert(s@.subrange(i as int, i + m)[j as int] == s@[i + j]);
                    }
                }
                all_eq = false;
                j = m;
            } else {
                j += 1;
            }
        }
        if all_eq {
            proof {
                assert(s@.subrange(i as int, i + m) =~= p@);
                lemma_find_sub(s@, p@);
                match find_sub(s@, p@) {
                    Some(k) => {
                        if k < i as nat {
                            assert(matches_at(s@, k as int, p@));
                        } else if k > i as nat {
                            assert(!matches_at(s@, i as int, p@));
                        }
                    },
                    None => {
                        assert(!matches_at(s@, i as int, p@));
                    },
                }
            }
            return Some(i);
        }
        i += 1;
    }
    None
}

/// The whitespace-separated fields of `s[i..]`, given the partial field
/// `cur` and the fields `acc` already completed.
pub open spec fn split_ws_from(
    s: Seq<char>,
    i: int,
    cur: Seq<char>,
    acc: Seq<Seq<char>>,
) -> Seq<Seq<char>>
    decreases s.len() - i,
    when 0 <= i <= s.len()
{
    if i >= s.len() {
        if cur.len() > 0 {
            acc.push(cur)
        } else {
            acc
        }
    } else if is_space(s[i]) {
        if cur.len() > 0 {
            split_ws_from(s, i + 1, Seq::empty(), acc.push(cur))
        } else {
            split_ws_from(s, i + 1, cur, acc)
        }
    } else {
        split_ws_from(s, i + 1, cur.push(s[i]), acc)
    }
}

/// The whitespace-separated fields of `s`, in order, each non-empty.
pub open spec fn split_ws(s: Seq<char>) -> Seq<Seq<char>> {
    split_ws_from(s, 0, Seq::empty(), Seq::empty())
}

/// Splits into whitespace-separated fields.
pub fn split_ws_fields(s: &Vec<char>) -> (r: Vec<Vec<char>>)
    ensures
        r.deep_view() == split_ws(s@),
{
    let n = s.len();
    let mut acc: Vec<Vec<char>> = Vec::new();
    let mut cur: Vec<char> = Vec::new();
    let mut i: usize = 0;
    proof {
        assert(acc.deep_view() =~~= Seq::<Seq<char>>::empty());
    }
    while i < n
        invariant
            i <= n,
            n == s@.len(),
            split_ws(s@) == split_ws_from(s@, i as int, cur@, acc.deep_view()),
        decreases n - i,
    {
        let ghost acc0 = acc.deep_view();
        let ghost cur0 = cur@;
        if space_at(s[i]) {
            if cur.len() > 0 {
                acc.push(cur);
                cur = Vec::new();
                proof {
                    assert(acc.deep_view() =~~= acc0.push(cur0));
                }
            }
        } else {
            cur.push(s[i]);
        }
        i += 1;
    }
    if cur.len() > 0 {
        let ghost acc0 = acc.deep_view();
        let ghost cur0 = cur@;
        acc.push(cur);
        proof {
            assert(acc.deep_view() =~~= acc0.push(cur0));
        }
    }
    acc
}

/// The lines of `s[i..]`, split at newline characters, given the partial
/// line `cur` and the lines `acc` already completed.  A carriage return
/// just before a newline is dropped; a final fragment without a newline
/// forms a line only when non-empty.
pub open spec fn lines_from(
    s: Seq<char>,
    i: int,
    cur: Seq<char>,
    acc: Seq<Seq<char>>,
) -> Seq<Seq<char>>
    decreases s.len() - i,
    when 0 <= i <= s.len()
{
    if i >= s.len() {
        if cur.len() > 0 {
            acc.push(cur)
        } else {
            acc
        }
    } else if s[i] == '\n' {
        let line = if cur.len() > 0 && cur.last() == '\r' {
            cur.drop_last()
        } else {
            cur
        };
        lines_from(s, i + 1, Seq::empty(), acc.push(line))
    } else {
        lines_from(s, i + 1, cur.push(s[i]), acc)
    }
}

/// The lines of `s`, as a line-based reader hands them out: split at
/// newlines, with the newline and a preceding carriage return removed.
pub open spec fn spec_lines(s: Seq<char>) -> Seq<Seq<char>> {
    lines_from(s, 0, Seq::empty(), Seq::empty())
}

/// Splits into lines.
pub fn split_lines(s: &Vec<char>) -> (r: Vec<Vec<char>>)
    ensures
        r.deep_view() == spec_lines(s@),
{
    let n = s.len();
    let mut acc: Vec<Vec<char>> = Vec::new();
    let mut cur: Vec<char> = Vec::new();
    let mut i: usize = 0;
    proof {
        assert(acc.deep_view() =~~= Seq::<Seq<char>>::empty());
    }
    while i < n
        invariant
            i <= n,
            n == s@.len(),
            spec_lines(s@) == lines_from(s@, i as int, cur@, acc.deep_view()),
        decreases n - i,
    {
        let ghost acc0 = acc.deep_view();
        let ghost cur0 = cur@;
        if s[i] == '\n' {
            if cur.len() > 0 && cur[cur.len() - 1] == '\r' {
                cur.pop();
            }
            let ghost line = cur@;
            acc.push(cur);
            cur = Vec::new();
            proof {
                assert(acc.deep_view() =~~= acc0.push(line));
            }
        } else {
            cur.push(s[i]);
        }
        i += 1;
    }
    if cur.len() > 0 {
        let ghost acc0 = acc.deep_view();
        let ghost cur0 = cur@;
        acc.push(cur);
        proof {
            assert(acc.deep_view() =~~= acc0.push(cur0));
        }
    }
    acc
}

/// Relies on `String::from_iter` over `char`: collecting characters yields
/// the string with exactly those characters.
#[verifier::external_body]
pub(crate) fn string_from_chars(v: &Vec<char>) -> (s: String)
    ensures
        s@ == v@,
{
    v.iter().collect()
}

} // verus!
