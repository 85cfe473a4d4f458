use vstd::prelude::*;

verus! {

/// Available and total memory, in the unit `/proc/meminfo` uses (kB).
pub type RamInfo = (u64, u64);

/// Used and total swap, in the unit `/proc/meminfo` uses (kB).
pub type SwapInfo = (u64, u64);

// ---------------------------------------------------------------------------
// Text model: characters, lines, whitespace-separated tokens, numbers.
// ---------------------------------------------------------------------------

/// Unicode `White_Space`, the property behind `char::is_whitespace`.
pub open spec fn is_whitespace(c: char) -> bool {
    let u = c as u32;
    ||| 9 <= u <= 13
    ||| u == 0x20
    ||| u == 0x85
    ||| u == 0xA0
    ||| u == 0x1680
    ||| 0x2000 <= u <= 0x200A
    ||| u == 0x2028
    ||| u == 0x2029
    ||| u == 0x202F
    ||| u == 0x205F
    ||| u == 0x3000
}

/// Number of characters before the first `'\n'` (all of them when there is none).
pub open spec fn line_len(s: Seq<char>) -> nat
    decreases s.len(),
{
    if s.len() == 0 {
        0
    } else if s[0] == '\n' {
        0
    } else {
        1 + line_len(s.drop_first())
    }
}

/// A line that ended with `"\r\n"` loses its `'\r'`.
pub open spec fn strip_cr(l: Seq<char>) -> Seq<char> {
    if l.len() > 0 && l.last() == '\r' {
        l.drop_last()
    } else {
        l
    }
}

/// The lines of a text as `str::lines` gives them: split at `'\n'`, a `'\r'`
/// before the `'\n'` dropped, and no empty line after a final `'\n'`.
pub open spec fn lines(s: Seq<char>) -> Seq<Seq<char>>
    decreases s.len(),
{
    if s.len() == 0 {
        seq![]
    } else {
        let n = line_len(s);
        if n >= s.len() {
            seq![s]
        } else {
            seq![strip_cr(s.take(n as int))] + lines(s.skip(n as int + 1))
        }
    }
}

/// Number of leading non-whitespace characters.
pub open spec fn word_len(s: Seq<char>) -> nat
    decreases s.len(),
{
    if s.len() == 0 || is_whitespace(s[0]) {
        0
    } else {
        1 + word_len(s.drop_first())
    }
}

pub proof fn lemma_word_len_bound(s: Seq<char>)
    ensures
        word_len(s) <= s.len(),
        s.len() > 0 && !is_whitespace(s[0]) ==> word_len(s) >= 1,
    decreases s.len(),
{
    if s.len() > 0 && !is_whitespace(s[0]) {
        lemma_word_len_bound(s.drop_first());
    }
}

/// The whitespace-separated tokens of a text, as `str::split_whitespace` gives them.
pub open spec fn tokens(s: Seq<char>) -> Seq<Seq<char>>
    decreases s.len(),
{
    if s.len() == 0 {
        seq![]
    } else if is_whitespace(s[0]) {
        tokens(s.drop_first())
    } else {
        let n = word_len(s);
        proof {
            lemma_word_len_bound(s);
        }
        seq![s.take(n as int)] + tokens(s.skip(n as int))
    }
}

pub open spec fn is_digit(c: char) -> bool {
    48 <= (c as u32) <= 57
}

pub open spec fn digit_value(c: char) -> nat {
    ((c as u32) - 48) as nat
}

/// Value of a string of decimal digits.
pub open spec fn decimal_value(s: Seq<char>) -> nat
    decreases s.len(),
{
    if s.len() == 0 {
        0
    } else {
        decimal_value(s.drop_last()) * 10 + digit_value(s.last())
    }
}

pub open spec fn all_digits(s: Seq<char>) -> bool {
    forall|i: int| 0 <= i < s.len() ==> #[trigger] is_digit(s[i])
}

/// What `str::parse::<u64>` gives: an optional `'+'`, then at least one
/// decimal digit and nothing else, and a value that fits in a `u64`.
pub open spec fn parse_u64(s: Seq<char>) -> Option<u64> {
    let d = if s.len() > 0 && s[0] == '+' {
        s.drop_first()
    } else {
        s
    };
    if d.len() > 0 && all_digits(d) && decimal_value(d) <= u64::MAX {
        Some(decimal_value(d) as u64)
    } else {
        None
    }
}

/// The number in the second token of a line, as in `"MemTotal:  16318320 kB"`.
pub open spec fn second_field(line: Seq<char>) -> Option<u64> {
    let t = tokens(line);
    if t.len() >= 2 {
        parse_u64(t[1])
    } else {
        None
    }
}

pub open spec fn has_prefix(l: Seq<char>, p: Seq<char>) -> bool {
    p.len() <= l.len() && l.take(p.len() as int) == p
}

/// The last line that starts with `p`.
pub open spec fn last_with_prefix(ls: Seq<Seq<char>>, p: Seq<char>) -> Option<Seq<char>>
    decreases ls.len(),
{
    if ls.len() == 0 {
        None
    } else if has_prefix(ls.last(), p) {
        Some(ls.last())
    } else {
        last_with_prefix(ls.drop_last(), p)
    }
}

/// The index of the first line that starts with `p`.
pub open spec fn first_with_prefix(ls: Seq<Seq<char>>, p: Seq<char>) -> Option<int>
    decreases ls.len(),
{
    if ls.len() == 0 {
        None
    } else {
        match first_with_prefix(ls.drop_last(), p) {
            Some(i) => Some(i),
            None => if has_prefix(ls.last(), p) {
                Some(ls.len() - 1)
            } else {
                None
            },
        }
    }
}

// ---------------------------------------------------------------------------
// What the readers compute.
// ---------------------------------------------------------------------------

/// Memory figures of a `/proc/meminfo` text: from the last `MemAvailable:`
/// line and the last `MemTotal:` line, the number after the label. `None`
/// when a line is missing or its number does not parse.
pub open spec fn spec_ram_info(text: Seq<char>) -> Option<RamInfo> {
    let ls = lines(text);
    match (last_with_prefix(ls, "MemAvailable:"@), last_with_prefix(ls, "MemTotal:"@)) {
        (Some(a), Some(t)) => match (second_field(a), second_field(t)) {
            (Some(x), Some(y)) => Some((x, y)),
            _ => None,
        },
        _ => None,
    }
}

/// Swap figures of a `/proc/meminfo` text. Lines are read until a
/// `SwapFree:` and a `SwapTotal:` line have both been seen; of each kind the
/// last one read counts. The result is `(total - free, total)`; `None` when a
/// line is missing, a number does not parse, or free exceeds total.
pub open spec fn spec_swap_info(text: Seq<char>) -> Option<SwapInfo> {
    let ls = lines(text);
    match (first_with_prefix(ls, "SwapFree:"@), first_with_prefix(ls, "SwapTotal:"@)) {
        (Some(i), Some(j)) => {
            let seen = ls.take(if i < j { j + 1 } else { i + 1 });
            match (last_with_prefix(seen, "SwapFree:"@), last_with_prefix(seen, "SwapTotal:"@)) {
                (Some(f), Some(t)) => match (second_field(f), second_field(t)) {
                    (Some(x), Some(y)) => if x <= y {
                        Some(((y - x) as u64, y))
                    } else {
                        None
                    },
                    _ => None,
                },
                _ => None,
            }
        },
        _ => None,
    }
}


// ---------------------------------------------------------------------------
// Lines.
// ---------------------------------------------------------------------------

/// The characters of `text`, in order.
pub fn chars_of(text: &str) -> (v: Vec<char>)
    ensures
        v@ == text@,
{
    let mut v: Vec<char> = Vec::new();
    for c in it: text.chars()
        invariant
            v@ == it.seq().take(it.index() as int),
    {
        v.push(c);
        proof {
            assert(it.seq().take(it.index() + 1) == it.seq().take(it.index() as int).push(c));
        }
    }
    v
}

proof fn lemma_line_len(s: Seq<char>, i: int)
    requires
        0 <= i <= s.len(),
        forall|j: int| 0 <= j < i ==> s[j] != '\n',
        i == s.len() || s[i] == '\n',
    ensures
        line_len(s) == i,
    decreases i,
{
    if i > 0 {
        assert(s[0] != '\n');
        lemma_line_len(s.drop_first(), i - 1);
    }
}

/// The lines of `s[from..]` in a view over line ranges.
pub open spec fn range_seqs(s: Seq<char>, r: Seq<(usize, usize)>) -> Seq<Seq<char>> {
    Seq::new(r.len(), |i: int| s.subrange(r[i].0 as int, r[i].1 as int))
}

pub open spec fn ranges_in(s: Seq<char>, r: Seq<(usize, usize)>) -> bool {
    forall|i: int| 0 <= i < r.len() ==> #[trigger] r[i].0 <= r[i].1 && r[i].1 <= s.len()
}

/// Start and end of each line of `s`, in order.
fn split_lines(s: &Vec<char>) -> (r: Vec<(usize, usize)>)
    ensures
        ranges_in(s@, r@),
        range_seqs(s@, r@) == lines(s@),
{
    let mut r: Vec<(usize, usize)> = Vec::new();
    let mut pos: usize = 0;
    let n = s.len();
    proof {
        assert(s@.skip(0) == s@);
        assert(range_seqs(s@, r@) == Seq::<Seq<char>>::empty());
        assert(range_seqs(s@, r@) + lines(s@) == lines(s@));
    }
    while pos < n
        invariant
            n == s@.len(),
            pos <= n,
            ranges_in(s@, r@),
            lines(s@) == range_seqs(s@, r@) + lines(s@.skip(pos as int)),
        decreases n - pos,
    {
        let mut j = pos;
        while j < n && s[j] != '\n'
            invariant
                pos <= j <= n,
                n == s@.len(),
                forall|k: int| pos <= k < j ==> s@[k] != '\n',
            decreases n - j,
        {
            j += 1;
        }
        let ghost rest = s@.skip(pos as int);
        proof {
            lemma_line_len(rest, j - pos);
        }
        let ghost old_r = r@;
        if j == n {
            r.push((pos, n));
            proof {
                assert(rest == s@.subrange(pos as int, n as int));
                assert(lines(rest) == seq![rest]);
                assert(range_seqs(s@, r@) == range_seqs(s@, old_r).push(rest));
                assert(s@.skip(n as int) == Seq::<char>::empty());
                assert(lines(s@.skip(n as int)) == Seq::<Seq<char>>::empty());
                assert(lines(s@) == range_seqs(s@, r@) + lines(s@.skip(n as int)));
            }
            pos = n;
        } else {
            let end = if j > pos && s[j - 1] == '\r' {
                j - 1
            } else {
                j
            };
            r.push((pos, end));
            proof {
                let ln = (j - pos) as int;
                assert(rest.take(ln) == s@.subrange(pos as int, j as int));
                assert(strip_cr(rest.take(ln)) == s@.subrange(pos as int, end as int));
                assert(rest.skip(ln + 1) == s@.skip(j + 1));
                assert(lines(rest) == seq![strip_cr(rest.take(ln))] + lines(rest.skip(ln + 1)));
                assert(range_seqs(s@, r@) == range_seqs(s@, old_r).push(s@.subrange(pos as int, end as int)));
                assert(lines(s@) == range_seqs(s@, r@) + lines(s@.skip(j + 1)));
            }
            pos = j + 1;
        }
    }
    proof {
        assert(s@.skip(n as int) == Seq::<char>::empty());
        assert(range_seqs(s@, r@) + Seq::<Seq<char>>::empty() == range_seqs(s@, r@));
    }
    r
}


// ---------------------------------------------------------------------------
// Tokens and numbers.
// ---------------------------------------------------------------------------

fn is_ws(c: char) -> (r: bool)
    ensures
        r == is_whitespace(c),
{
    let u = c as u32;
    (9 <= u && u <= 13) || u == 0x20 || u == 0x85 || u == 0xA0 || u == 0x1680 || (0x2000 <= u
        && u <= 0x200A) || u == 0x2028 || u == 0x2029 || u == 0x202F || u == 0x205F || u == 0x3000
}

proof fn lemma_word_len(s: Seq<char>, i: int)
    requires
        0 <= i <= s.len(),
        forall|j: int| 0 <= j < i ==> !is_whitespace(#[trigger] s[j]),
        i == s.len() || is_whitespace(s[i]),
    ensures
        word_len(s) == i,
    decreases i,
{
    if i > 0 {
        assert(!is_whitespace(s[0]));
        lemma_word_len(s.drop_first(), i - 1);
    }
}

proof fn lemma_tokens_skip_ws(s: Seq<char>, i: int)
    requires
        0 <= i <= s.len(),
        forall|j: int| 0 <= j < i ==> is_whitespace(#[trigger] s[j]),
    ensures
        tokens(s) == tokens(s.skip(i)),
    decreases i,
{
    if i > 0 {
        assert(is_whitespace(s[0]));
        lemma_tokens_skip_ws(s.drop_first(), i - 1);
        assert(s.drop_first().skip(i - 1) == s.skip(i));
    } else {
        assert(s.skip(0) == s);
    }
}

/// Index of the first whitespace character in `s[from..to]` (or `to`).
fn skip_word(s: &Vec<char>, from: usize, to: usize) -> (r: usize)
    requires
        from <= to <= s@.len(),
    ensures
        from <= r <= to,
        forall|k: int| from <= k < r ==> !is_whitespace(#[trigger] s@[k]),
        r == to || is_whitespace(s@[r as int]),
{
    let mut j = from;
    while j < to && !is_ws(s[j])
        invariant
            from <= j <= to,
            to <= s@.len(),
            forall|k: int| from <= k < j ==> !is_whitespace(#[trigger] s@[k]),
        decreases to - j,
    {
        j += 1;
    }
    j
}

/// Index of the first non-whitespace character in `s[from..to]` (or `to`).
fn skip_space(s: &Vec<char>, from: usize, to: usize) -> (r: usize)
    requires
        from <= to <= s@.len(),
    ensures
        from <= r <= to,
        forall|k: int| from <= k < r ==> is_whitespace(#[trigger] s@[k]),
        r == to || !is_whitespace(s@[r as int]),
{
    let mut j = from;
    while j < to && is_ws(s[j])
        invariant
            from <= j <= to,
            to <= s@.len(),
            forall|k: int| from <= k < j ==> is_whitespace(#[trigger] s@[k]),
        decreases to - j,
    {
        j += 1;
    }
    j
}

proof fn lemma_decimal_prefix(d: Seq<char>, n: int)
    requires
        0 <= n <= d.len(),
    ensures
        decimal_value(d.take(n)) <= decimal_value(d),
    decreases d.len(),
{
    if n < d.len() {
        lemma_decimal_prefix(d.drop_last(), n);
        assert(d.drop_last().take(n) == d.take(n));
    } else {
        assert(d.take(n) == d);
    }
}

/// `str::parse::<u64>` of `s[a..b]`.
fn parse_u64_at(s: &Vec<char>, a: usize, b: usize) -> (r: Option<u64>)
    requires
        a <= b <= s@.len(),
    ensures
        r == parse_u64(s@.subrange(a as int, b as int)),
{
    let ghost t = s@.subrange(a as int, b as int);
    let mut i = a;
    if i < b && s[i] == '+' {
        i = i + 1;
    }
    let ghost d = s@.subrange(i as int, b as int);
    proof {
        if t.len() > 0 && t[0] == '+' {
            assert(d == t.drop_first());
        } else {
            assert(d == t);
        }
    }
    if i == b {
        return None;
    }
    let mut v: u64 = 0;
    let mut k = i;
    proof {
        assert(s@.subrange(i as int, i as int) == Seq::<char>::empty());
    }
    while k < b
        invariant
            a <= i <= k <= b,
            b <= s@.len(),
            t == s@.subrange(a as int, b as int),
            d == s@.subrange(i as int, b as int),
            d == if t.len() > 0 && t[0] == '+' {
                t.drop_first()
            } else {
                t
            },
            d.len() > 0,
            all_digits(s@.subrange(i as int, k as int)),
            v == decimal_value(s@.subrange(i as int, k as int)),
        decreases b - k,
    {
        let c = s[k];
        let u = c as u32;
        if !(48 <= u && u <= 57) {
            proof {
                assert(d[k - i] == c);
                assert(!is_digit(d[k - i]));
                assert(!all_digits(d));
            }
            return None;
        }
        let dv = (u - 48) as u64;
        let ghost next = s@.subrange(i as int, k + 1);
        proof {
            assert(next.drop_last() == s@.subrange(i as int, k as int));
            assert(next.last() == c);
        }
        if v > (u64::MAX - dv) / 10 {
            proof {
                assert(v * 10 + dv > u64::MAX) by (nonlinear_arith)
                    requires
                        v > (u64::MAX - dv) / 10,
                        dv <= 9,
                ;
                assert(digit_value(c) == dv);
                assert(decimal_value(next) == v * 10 + dv);
                assert(d.take(k + 1 - i) == next);
                lemma_decimal_prefix(d, k + 1 - i);
                assert(decimal_value(d) > u64::MAX);
            }
            return None;
        }
        proof {
            assert(v * 10 + dv <= u64::MAX) by (nonlinear_arith)
                requires
                    v <= (u64::MAX - dv) / 10,
                    dv <= 9,
            ;
            assert forall|j: int| 0 <= j < next.len() implies #[trigger] is_digit(next[j]) by {
                if j < next.len() - 1 {
                    assert(next[j] == s@.subrange(i as int, k as int)[j]);
                }
            }
        }
        proof {
            assert(digit_value(c) == dv);
        }
        v = v * 10 + dv;
        k = k + 1;
    }
    Some(v)
}

proof fn lemma_tokens_word(u: Seq<char>, n: int)
    requires
        0 < n <= u.len(),
        forall|j: int| 0 <= j < n ==> !is_whitespace(#[trigger] u[j]),
        n == u.len() || is_whitespace(u[n]),
    ensures
        tokens(u) == seq![u.take(n)] + tokens(u.skip(n)),
{
    lemma_word_len(u, n);
    assert(!is_whitespace(u[0]));
}

/// Tokens of `s[from..to]` after skipping leading whitespace up to `i`.
proof fn lemma_tokens_after_space(s: Seq<char>, from: int, i: int, to: int)
    requires
        0 <= from <= i <= to <= s.len(),
        forall|k: int| from <= k < i ==> is_whitespace(#[trigger] s[k]),
    ensures
        tokens(s.subrange(from, to)) == tokens(s.subrange(i, to)),
{
    let t = s.subrange(from, to);
    assert forall|k: int| 0 <= k < i - from implies is_whitespace(#[trigger] t[k]) by {
        assert(t[k] == s[from + k]);
    }
    lemma_tokens_skip_ws(t, i - from);
    assert(t.skip(i - from) == s.subrange(i, to));
}

/// Tokens of `s[from..to]` when a word runs from `from` to `j`.
proof fn lemma_tokens_after_word(s: Seq<char>, from: int, j: int, to: int)
    requires
        0 <= from < j <= to <= s.len(),
        forall|k: int| from <= k < j ==> !is_whitespace(#[trigger] s[k]),
        j == to || is_whitespace(s[j]),
    ensures
        tokens(s.subrange(from, to)) == seq![s.subrange(from, j)] + tokens(s.subrange(j, to)),
{
    let u = s.subrange(from, to);
    assert forall|k: int| 0 <= k < j - from implies !is_whitespace(#[trigger] u[k]) by {
        assert(u[k] == s[from + k]);
    }
    if j < to {
        assert(u[j - from] == s[j]);
    }
    lemma_tokens_word(u, j - from);
    assert(u.take(j - from) == s.subrange(from, j));
    assert(u.skip(j - from) == s.subrange(j, to));
}

/// `second_field` of `s[a..b]`.
fn second_field_at(s: &Vec<char>, a: usize, b: usize) -> (r: Option<u64>)
    requires
        a <= b <= s@.len(),
    ensures
        r == second_field(s@.subrange(a as int, b as int)),
{
    let i = skip_space(s, a, b);
    proof {
        lemma_tokens_after_space(s@, a as int, i as int, b as int);
    }
    if i == b {
        proof {
            assert(s@.subrange(i as int, b as int) == Seq::<char>::empty());
        }
        return None;
    }
    let j = skip_word(s, i, b);
    proof {
        lemma_tokens_after_word(s@, i as int, j as int, b as int);
    }
    let k = skip_space(s, j, b);
    proof {
        lemma_tokens_after_space(s@, j as int, k as int, b as int);
    }
    if k == b {
        proof {
            assert(s@.subrange(k as int, b as int) == Seq::<char>::empty());
        }
        return None;
    }
    let m = skip_word(s, k, b);
    proof {
        lemma_tokens_after_word(s@, k as int, m as int, b as int);
    }
    parse_u64_at(s, k, m)
}

// ---------------------------------------------------------------------------
// Labelled lines.
// ---------------------------------------------------------------------------

/// Whether `s[a..b]` starts with `p`.
fn has_prefix_at(s: &Vec<char>, a: usize, b: usize, p: &Vec<char>) -> (r: bool)
    requires
        a <= b <= s@.len(),
    ensures
        r == has_prefix(s@.subrange(a as int, b as int), p@),
{
    let ghost l = s@.subrange(a as int, b as int);
    if p.len() > b - a {
        return false;
    }
    let mut i: usize = 0;
    while i < p.len()
        invariant
            i <= p@.len(),
            p@.len() <= b - a,
            a <= b <= s@.len(),
            l == s@.subrange(a as int, b as int),
            forall|j: int| 0 <= j < i ==> #[trigger] l[j] == p@[j],
        decreases p@.len() - i,
    {
        if s[a + i] != p[i] {
            proof {
                assert(l.take(p@.len() as int)[i as int] != p@[i as int]);
            }
            return false;
        }
        i += 1;
    }
    proof {
        assert(l.take(p@.len() as int) =~= p@);
    }
    true
}

proof fn lemma_last_iff_first(ls: Seq<Seq<char>>, p: Seq<char>)
    ensures
        last_with_prefix(ls, p) is Some <==> first_with_prefix(ls, p) is Some,
    decreases ls.len(),
{
    if ls.len() > 0 {
        lemma_last_iff_first(ls.drop_last(), p);
    }
}

proof fn lemma_first_bound(ls: Seq<Seq<char>>, p: Seq<char>)
    ensures
        first_with_prefix(ls, p) matches Some(i) ==> 0 <= i < ls.len(),
    decreases ls.len(),
{
    if ls.len() > 0 {
        lemma_first_bound(ls.drop_last(), p);
    }
}

proof fn lemma_first_append(a: Seq<Seq<char>>, b: Seq<Seq<char>>, p: Seq<char>)
    requires
        first_with_prefix(a, p) is Some,
    ensures
        first_with_prefix(a + b, p) == first_with_prefix(a, p),
    decreases b.len(),
{
    if b.len() == 0 {
        assert(a + b == a);
    } else {
        lemma_first_append(a, b.drop_last(), p);
        assert((a + b).drop_last() == a + b.drop_last());
    }
}

/// The text of the line at a range, if any.
pub open spec fn line_at(s: Seq<char>, r: Option<(usize, usize)>) -> Option<Seq<char>> {
    match r {
        Some(x) => Some(s.subrange(x.0 as int, x.1 as int)),
        None => None,
    }
}

pub open spec fn range_ok(s: Seq<char>, r: Option<(usize, usize)>) -> bool {
    r matches Some(x) ==> x.0 <= x.1 <= s.len()
}

proof fn lemma_take_step(all: Seq<Seq<char>>, k: int)
    requires
        0 <= k < all.len(),
    ensures
        all.take(k + 1).drop_last() == all.take(k),
        all.take(k + 1).last() == all[k],
        all.take(k + 1).len() == k + 1,
{
    assert(all.take(k + 1).drop_last() =~= all.take(k));
}

/// Memory figures of a `/proc/meminfo` text, or `None` where reading them
/// fails (see `spec_ram_info`).
pub fn try_ram_info(text: &str) -> (r: Option<RamInfo>)
    ensures
        r == spec_ram_info(text@),
{
    let s = chars_of(text);
    let ls = split_lines(&s);
    let pa = chars_of("MemAvailable:");
    let pt = chars_of("MemTotal:");
    let ghost all = lines(s@);
    let mut ava: Option<(usize, usize)> = None;
    let mut total: Option<(usize, usize)> = None;
    let n = ls.len();
    for k in 0..n
        invariant
            n == ls@.len(),
            all == range_seqs(s@, ls@),
            ranges_in(s@, ls@),
            pa@ == "MemAvailable:"@,
            pt@ == "MemTotal:"@,
            range_ok(s@, ava),
            range_ok(s@, total),
            line_at(s@, ava) == last_with_prefix(all.take(k as int), pa@),
            line_at(s@, total) == last_with_prefix(all.take(k as int), pt@),
    {
        let (a, b) = ls[k];
        proof {
            assert(ranges_in(s@, ls@));
            assert(ls@[k as int].0 <= ls@[k as int].1);
            lemma_take_step(all, k as int);
            assert(all[k as int] == s@.subrange(a as int, b as int));
        }
        if has_prefix_at(&s, a, b, &pa) {
            ava = Some((a, b));
        }
        if has_prefix_at(&s, a, b, &pt) {
            total = Some((a, b));
        }
    }
    proof {
        assert(all.take(n as int) == all);
    }
    match (ava, total) {
        (Some((a1, b1)), Some((a2, b2))) => match (second_field_at(&s, a1, b1), second_field_at(&s, a2, b2)) {
            (Some(x), Some(y)) => Some((x, y)),
            _ => None,
        },
        _ => None,
    }
}

/// Memory figures of a `/proc/meminfo` text: available and total memory.
pub fn ram_info(text: &str) -> (r: RamInfo)
    requires
        spec_ram_info(text@) is Some,
    ensures
        spec_ram_info(text@) == Some(r),
{
    try_ram_info(text).unwrap()
}

/// Swap figures of a `/proc/meminfo` text, or `None` where reading them
/// fails (see `spec_swap_info`).
pub fn try_swap_info(text: &str) -> (r: Option<SwapInfo>)
    ensures
        r == spec_swap_info(text@),
{
    let s = chars_of(text);
    let ls = split_lines(&s);
    let pf = chars_of("SwapFree:");
    let pt = chars_of("SwapTotal:");
    let ghost all = lines(s@);
    let mut free: Option<(usize, usize)> = None;
    let mut total: Option<(usize, usize)> = None;
    let n = ls.len();
    let mut k: usize = 0;
    while k < n && !(free.is_some() && total.is_some())
        invariant
            k <= n,
            n == ls@.len(),
            all == range_seqs(s@, ls@),
            ranges_in(s@, ls@),
            pf@ == "SwapFree:"@,
            pt@ == "SwapTotal:"@,
            range_ok(s@, free),
            range_ok(s@, total),
            line_at(s@, free) == last_with_prefix(all.take(k as int), pf@),
            line_at(s@, total) == last_with_prefix(all.take(k as int), pt@),
            k > 0 ==> !(first_with_prefix(all.take(k - 1), pf@) is Some && first_with_prefix(
                all.take(k - 1),
                pt@,
            ) is Some),
        decreases n - k,
    {
        let (a, b) = ls[k];
        proof {
            assert(ls@[k as int].0 <= ls@[k as int].1);
            lemma_take_step(all, k as int);
            assert(all[k as int] == s@.subrange(a as int, b as int));
            lemma_last_iff_first(all.take(k as int), pf@);
            lemma_last_iff_first(all.take(k as int), pt@);
        }
        if has_prefix_at(&s, a, b, &pf) {
            free = Some((a, b));
        }
        if has_prefix_at(&s, a, b, &pt) {
            total = Some((a, b));
        }
        k += 1;
    }
    proof {
        lemma_last_iff_first(all.take(k as int), pf@);
        lemma_last_iff_first(all.take(k as int), pt@);
        if free.is_some() && total.is_some() {
            let seen = all.take(k as int);
            let prev = all.take(k - 1);
            lemma_take_step(all, k - 1);
            lemma_first_bound(seen, pf@);
            lemma_first_bound(seen, pt@);
            lemma_first_append(seen, all.skip(k as int), pf@);
            lemma_first_append(seen, all.skip(k as int), pt@);
            assert(seen + all.skip(k as int) == all);
        } else {
            assert(all.take(n as int) == all);
        }
    }
    match (free, total) {
        (Some((a1, b1)), Some((a2, b2))) => match (second_field_at(&s, a1, b1), second_field_at(&s, a2, b2)) {
            (Some(x), Some(y)) => if x <= y {
                Some((y - x, y))
            } else {
                None
            },
            _ => None,
        },
        _ => None,
    }
}

/// Swap figures of a `/proc/meminfo` text: used and total swap.
pub fn swap_info(text: &str) -> (r: SwapInfo)
    requires
        spec_swap_info(text@) is Some,
    ensures
        spec_swap_info(text@) == Some(r),
{
    try_swap_info(text).unwrap()
}

/// The last memory and swap figures read.
pub struct MemInfo {
    pub ram: Option<RamInfo>,
    pub swap: Option<SwapInfo>,
}

impl MemInfo {
    /// Nothing read yet.
    pub fn new() -> (r: Self)
        ensures
            r.ram is None,
            r.swap is None,
    {
        MemInfo { ram: None, swap: None }
    }

    pub fn update_ram_info(&mut self, info: RamInfo)
        ensures
            final(self).ram == Some(info),
            final(self).swap == old(self).swap,
    {
        self.ram = Some(info);
    }

    pub fn get_ram_info(&self) -> (r: Option<RamInfo>)
        ensures
            r == self.ram,
    {
        self.ram
    }

    pub fn update_swap_info(&mut self, info: SwapInfo)
        ensures
            final(self).swap == Some(info),
            final(self).ram == old(self).ram,
    {
        self.swap = Some(info);
    }

    pub fn get_swap_info(&self) -> (r: Option<SwapInfo>)
        ensures
            r == self.swap,
    {
        self.swap
    }

    /// Reads both figures from a `/proc/meminfo` text and keeps them.
    pub fn update(&mut self, text: &str)
        requires
            spec_ram_info(text@) is Some,
            spec_swap_info(text@) is Some,
        ensures
            final(self).ram == spec_ram_info(text@),
            final(self).swap == spec_swap_info(text@),
    {
        let r = ram_info(text);
        let w = swap_info(text);
        self.update_ram_info(r);
        self.update_swap_info(w);
    }
}

} // verus!
