//! Reading numbers typed at the console: the text is split at a separator,
//! each piece is trimmed of white space and read as a decimal integer, and
//! pieces that do not read as one are skipped.
use vstd::prelude::*;

verus! {

// ─── Specification ──────────────────────────────────────────────────────

/// `c` is a white-space character (the Unicode White_Space property).
pub open spec fn is_white(c: char) -> bool {
    let v = c as u32;
    ||| 9 <= v <= 13
    ||| v == 32
    ||| v == 0x85
    ||| v == 0xA0
    ||| v == 0x1680
    ||| 0x2000 <= v <= 0x200A
    ||| v == 0x2028
    ||| v == 0x2029
    ||| v == 0x202F
    ||| v == 0x205F
    ||| v == 0x3000
}

/// `s` without its leading white space.
pub open spec fn trim_start(s: Seq<char>) -> Seq<char>
    decreases s.len(),
{
    if s.len() > 0 && is_white(s[0]) {
        trim_start(s.drop_first())
    } else {
        s
    }
}

/// `s` without its trailing white space.
pub open spec fn trim_end(s: Seq<char>) -> Seq<char>
    decreases s.len(),
{
    if s.len() > 0 && is_white(s.last()) {
        trim_end(s.drop_last())
    } else {
        s
    }
}

/// `s` without leading and trailing white space.
pub open spec fn trimmed(s: Seq<char>) -> Seq<char> {
    trim_end(trim_start(s))
}

/// The pieces of `s` between occurrences of `sep` (one more piece than
/// separators; pieces may be empty).
pub open spec fn pieces(s: Seq<char>, sep: char) -> Seq<Seq<char>>
    decreases s.len(),
{
    if s.len() == 0 {
        seq![Seq::empty()]
    } else {
        let parts = pieces(s.drop_last(), sep);
        if s.last() == sep {
            parts.push(Seq::empty())
        } else {
            parts.update(parts.len() - 1, parts.last().push(s.last()))
        }
    }
}

/// `c` is an ASCII digit.
pub open spec fn is_digit(c: char) -> bool {
    48 <= (c as u32) <= 57
}

/// The value of a string of digits.
pub open spec fn digits_value(s: Seq<char>) -> int
    decreases s.len(),
{
    if s.len() == 0 {
        0
    } else {
        digits_value(s.drop_last()) * 10 + ((s.last() as u32) - 48)
    }
}

/// The value of `s` if it is a non-empty string of digits.
pub open spec fn natural(s: Seq<char>) -> Option<int> {
    if s.len() > 0 && forall|i: int| 0 <= i < s.len() ==> is_digit(#[trigger] s[i]) {
        Some(digits_value(s))
    } else {
        None
    }
}

/// The value of `s` read as an integer: digits with an optional leading `+`,
/// or, when `signed`, an optional leading `-`.
pub open spec fn integer(s: Seq<char>, signed: bool) -> Option<int> {
    if s.len() > 0 && s[0] == '+' {
        natural(s.drop_first())
    } else if signed && s.len() > 0 && s[0] == '-' {
        match natural(s.drop_first()) {
            Some(v) => Some(-v),
            None => None,
        }
    } else {
        natural(s)
    }
}

/// The value of `s` read as an integer in `[lo, hi]`.
pub open spec fn integer_in(s: Seq<char>, signed: bool, lo: int, hi: int) -> Option<int> {
    match integer(s, signed) {
        Some(v) => if lo <= v <= hi {
            Some(v)
        } else {
            None
        },
        None => None,
    }
}

/// The values of those trimmed `parts` that read as integers in `[lo, hi]`.
pub open spec fn numbers(parts: Seq<Seq<char>>, signed: bool, lo: int, hi: int) -> Seq<int>
    decreases parts.len(),
{
    if parts.len() == 0 {
        Seq::empty()
    } else {
        let rest = numbers(parts.drop_last(), signed, lo, hi);
        match integer_in(trimmed(parts.last()), signed, lo, hi) {
            Some(v) => rest.push(v),
            None => rest,
        }
    }
}

/// The numbers read from `s`, split at `sep`.
pub open spec fn numbers_in(s: Seq<char>, sep: char, signed: bool, lo: int, hi: int) -> Seq<int> {
    numbers(pieces(s, sep), signed, lo, hi)
}


// ─── Proof helpers ──────────────────────────────────────────────────────

proof fn lemma_trim_start_skip(s: Seq<char>, k: int)
    requires
        0 <= k <= s.len(),
        forall|i: int| 0 <= i < k ==> is_white(#[trigger] s[i]),
    ensures
        trim_start(s) == trim_start(s.skip(k)),
    decreases k,
{
    if k > 0 {
        lemma_trim_start_skip(s.drop_first(), k - 1);
        assert(s.drop_first().skip(k - 1) =~= s.skip(k));
    } else {
        assert(s.skip(0) =~= s);
    }
}

proof fn lemma_trim_end_take(s: Seq<char>, k: int)
    requires
        0 <= k <= s.len(),
        forall|i: int| k <= i < s.len() ==> is_white(#[trigger] s[i]),
    ensures
        trim_end(s) == trim_end(s.take(k)),
    decreases s.len() - k,
{
    if k < s.len() {
        lemma_trim_end_take(s.drop_last(), k);
        assert(s.drop_last().take(k) =~= s.take(k));
    } else {
        assert(s.take(k) =~= s);
    }
}

proof fn lemma_digits_grow(s: Seq<char>, i: int)
    requires
        0 <= i <= s.len(),
        forall|j: int| 0 <= j < s.len() ==> is_digit(#[trigger] s[j]),
    ensures
        digits_value(s) >= digits_value(s.take(i)),
        digits_value(s.take(i)) >= 0,
    decreases s.len() - i,
{
    if i < s.len() {
        lemma_digits_grow(s.drop_last(), i);
        assert(s.drop_last().take(i) =~= s.take(i));
        lemma_digits_nonneg(s.drop_last());
    } else {
        assert(s.take(i) =~= s);
        lemma_digits_nonneg(s);
    }
}

proof fn lemma_digits_nonneg(s: Seq<char>)
    requires
        forall|j: int| 0 <= j < s.len() ==> is_digit(#[trigger] s[j]),
    ensures
        digits_value(s) >= 0,
    decreases s.len(),
{
    if s.len() > 0 {
        lemma_digits_nonneg(s.drop_last());
    }
}

// ─── Exec ───────────────────────────────────────────────────────────────

/// The characters of `s`.
pub fn chars_of(s: &str) -> (r: Vec<char>)
    ensures
        r@ == s@,
{
    let mut out: Vec<char> = Vec::new();
    for c in it: s.chars()
        invariant
            out@ == it.seq().take(it.index() as int),
            it.seq() == s@,
    {
        out.push(c);
    }
    out
}

/// Whether `c` is white space.
fn white(c: char) -> (r: bool)
    ensures
        r == is_white(c),
{
    let v = c as u32;
    (9 <= v && v <= 13) || v == 32 || v == 0x85 || v == 0xA0 || v == 0x1680 || (0x2000 <= v && v
        <= 0x200A) || v == 0x2028 || v == 0x2029 || v == 0x202F || v == 0x205F || v == 0x3000
}

/// `s` without leading and trailing white space.
fn trim_chars(s: &Vec<char>) -> (r: Vec<char>)
    ensures
        r@ == trimmed(s@),
{
    let mut start: usize = 0;
    while start < s.len() && white(s[start])
        invariant
            start <= s@.len(),
            forall|i: int| 0 <= i < start ==> is_white(#[trigger] s@[i]),
        decreases s@.len() - start,
    {
        start = start + 1;
    }
    let ghost t = s@.skip(start as int);
    proof {
        lemma_trim_start_skip(s@, start as int);
        if t.len() > 0 {
            assert(!is_white(t[0]));
        }
        assert(trim_start(t) == t);
    }
    let mut end: usize = s.len();
    while end > start && white(s[end - 1])
        invariant
            start <= end <= s@.len(),
            t == s@.skip(start as int),
            forall|i: int| end - start <= i < t.len() ==> is_white(#[trigger] t[i]),
        decreases end,
    {
        end = end - 1;
    }
    proof {
        lemma_trim_end_take(t, end - start);
        let u = t.take(end - start);
        if u.len() > 0 {
            assert(u.last() == s@[end - 1]);
        }
        assert(trim_end(u) == u);
    }
    let mut out: Vec<char> = Vec::new();
    let mut i: usize = start;
    while i < end
        invariant
            start <= i <= end <= s@.len(),
            out@ == s@.subrange(start as int, i as int),
        decreases end - i,
    {
        out.push(s[i]);
        assert(s@.subrange(start as int, i + 1) =~= s@.subrange(start as int, i as int).push(s@[i as int]));
        i = i + 1;
    }
    assert(out@ =~= t.take(end - start));
    out
}

/// The pieces of `s` between occurrences of `sep`.
fn split_chars(s: &Vec<char>, sep: char) -> (r: Vec<Vec<char>>)
    ensures
        r@.map_values(|p: Vec<char>| p@) == pieces(s@, sep),
{
    let mut done: Vec<Vec<char>> = Vec::new();
    let mut cur: Vec<char> = Vec::new();
    let mut i: usize = 0;
    while i < s.len()
        invariant
            i <= s@.len(),
            done@.map_values(|p: Vec<char>| p@).push(cur@) == pieces(s@.take(i as int), sep),
        decreases s@.len() - i,
    {
        let ghost before = done@.map_values(|p: Vec<char>| p@).push(cur@);
        assert(s@.take(i + 1).drop_last() =~= s@.take(i as int));
        if s[i] == sep {
            done.push(cur);
            cur = Vec::new();
            assert(done@.map_values(|p: Vec<char>| p@).push(cur@) =~= before.push(Seq::empty()));
        } else {
            cur.push(s[i]);
            assert(done@.map_values(|p: Vec<char>| p@).push(cur@) =~= before.update(
                before.len() - 1,
                before.last().push(s@[i as int]),
            ));
        }
        i = i + 1;
    }
    assert(s@.take(s@.len() as int) =~= s@);
    done.push(cur);
    assert(done@.map_values(|p: Vec<char>| p@) =~= pieces(s@, sep));
    done
}

/// The value of `s[from..]` if it is a non-empty string of digits at most
/// `limit`.
fn read_natural(s: &Vec<char>, from: usize, limit: u64) -> (r: Option<u64>)
    requires
        from <= s@.len(),
    ensures
        r == match natural(s@.skip(from as int)) {
            Some(v) => if v <= limit {
                Some(v as u64)
            } else {
                None::<u64>
            },
            None => None::<u64>,
        },
{
    let ghost t = s@.skip(from as int);
    if from >= s.len() {
        return None;
    }
    let mut acc: u64 = 0;
    let mut i: usize = from;
    while i < s.len()
        invariant
            from <= i <= s@.len(),
            t == s@.skip(from as int),
            forall|j: int| 0 <= j < i - from ==> is_digit(#[trigger] t[j]),
            acc == digits_value(t.take(i - from)),
            acc <= limit,
        decreases s@.len() - i,
    {
        let c = s[i];
        let v = c as u32;
        if !(48 <= v && v <= 57) {
            assert(!is_digit(t[i - from]));
            return None;
        }
        let d = (v - 48) as u64;
        assert(t.take(i + 1 - from).drop_last() =~= t.take(i - from));
        if d > limit || acc > (limit - d) / 10 {
            proof {
                if d <= limit {
                    assert(acc * 10 + d > limit) by (nonlinear_arith)
                        requires
                            acc > (limit - d) / 10,
                            d <= limit,
                    ;
                }
            }
            proof {
                if forall|j: int| 0 <= j < t.len() ==> is_digit(#[trigger] t[j]) {
                    lemma_digits_grow(t, i + 1 - from);
                }
            }
            return None;
        }
        assert(acc * 10 + d <= limit) by (nonlinear_arith)
            requires
                acc <= (limit - d) / 10,
                d <= limit,
        ;
        acc = acc * 10 + d;
        i = i + 1;
    }
    assert(t.take(i - from) =~= t);
    Some(acc)
}


/// The value of `p` read as an integer in `[lo, hi]`.
fn read_integer(p: &Vec<char>, signed: bool, lo: i64, hi: i64) -> (r: Option<i64>)
    requires
        lo <= 0 <= hi,
    ensures
        match r {
            Some(v) => integer_in(p@, signed, lo as int, hi as int) == Some(v as int),
            None => integer_in(p@, signed, lo as int, hi as int) is None,
        },
{
    if p.len() > 0 && p[0] == '+' {
        assert(p@.skip(1) =~= p@.drop_first());
        proof {
            if natural(p@.drop_first()) is Some {
                lemma_digits_nonneg(p@.drop_first());
            }
        }
        match read_natural(p, 1, hi as u64) {
            Some(v) => Some(v as i64),
            None => None,
        }
    } else if signed && p.len() > 0 && p[0] == '-' {
        assert(p@.skip(1) =~= p@.drop_first());
        let limit = (0i128 - lo as i128) as u64;
        proof {
            if natural(p@.drop_first()) is Some {
                lemma_digits_nonneg(p@.drop_first());
            }
        }
        match read_natural(p, 1, limit) {
            Some(v) => Some((0i128 - v as i128) as i64),
            None => None,
        }
    } else {
        assert(p@.skip(0) =~= p@);
        proof {
            if natural(p@) is Some {
                lemma_digits_nonneg(p@);
            }
        }
        match read_natural(p, 0, hi as u64) {
            Some(v) => Some(v as i64),
            None => None,
        }
    }
}

/// The integers in `[lo, hi]` read from the pieces of `s` between
/// occurrences of `sep`, each trimmed; pieces that do not read are skipped.
fn numbers_from(s: &str, sep: char, signed: bool, lo: i64, hi: i64) -> (r: Vec<i64>)
    requires
        lo <= 0 <= hi,
    ensures
        r@.map_values(|v: i64| v as int) == numbers_in(s@, sep, signed, lo as int, hi as int),
{
    let chars = chars_of(s);
    let parts = split_chars(&chars, sep);
    let ghost ps = parts@.map_values(|p: Vec<char>| p@);
    let mut out: Vec<i64> = Vec::new();
    let mut i: usize = 0;
    while i < parts.len()
        invariant
            lo <= 0 <= hi,
            i <= parts@.len(),
            ps == parts@.map_values(|p: Vec<char>| p@),
            out@.map_values(|v: i64| v as int) == numbers(ps.take(i as int), signed, lo as int, hi as int),
        decreases parts@.len() - i,
    {
        let piece = trim_chars(&parts[i]);
        assert(ps.take(i + 1).drop_last() =~= ps.take(i as int));
        assert(ps.take(i + 1).last() == parts@[i as int]@);
        match read_integer(&piece, signed, lo, hi) {
            Some(v) => {
                let ghost before = out@;
                out.push(v);
                assert(out@.map_values(|v: i64| v as int) =~= before.map_values(|v: i64| v as int).push(v as int));
            },
            None => {},
        }
        i = i + 1;
    }
    assert(ps.take(ps.len() as int) =~= ps);
    out
}

/// The board size typed as `WxH`: exactly two pieces between `x`s must read
/// as numbers.
pub open spec fn map_size(s: Seq<char>) -> Option<(u32, u32)> {
    let ns = numbers_in(s, 'x', false, 0, u32::MAX as int);
    if ns.len() == 2 {
        Some((ns[0] as u32, ns[1] as u32))
    } else {
        None
    }
}

/// Reads a board size typed as `WxH`.
pub fn parse_map_size(input: &str) -> (r: Option<(u32, u32)>)
    ensures
        r == map_size(input@),
{
    let ns = numbers_from(input, 'x', false, 0, u32::MAX as i64);
    if ns.len() == 2 {
        assert(ns@.map_values(|v: i64| v as int)[0] == ns@[0] as int);
        assert(ns@.map_values(|v: i64| v as int)[1] == ns@[1] as int);
        Some((ns[0] as u32, ns[1] as u32))
    } else {
        None
    }
}

/// The number of players typed at the console: the trimmed text as a number
/// up to 255, two if it does not read as one, and never fewer than two.
pub open spec fn player_count(s: Seq<char>) -> u8 {
    match integer_in(trimmed(s), false, 0, 255) {
        Some(v) => if v < 2 {
            2
        } else {
            v as u8
        },
        None => 2,
    }
}

/// Reads a number of players.
pub fn parse_player_count(input: &str) -> (r: u8)
    ensures
        r == player_count(input@),
{
    let chars = chars_of(input);
    let t = trim_chars(&chars);
    match read_integer(&t, false, 0, 255) {
        Some(v) => {
            if v < 2 {
                2
            } else {
                v as u8
            }
        },
        None => 2,
    }
}

/// A cell typed as `x,y`: exactly two pieces between commas must read as
/// 64-bit integers; each is then taken modulo 2^32.
pub open spec fn cell_coordinates(s: Seq<char>) -> Option<(u32, u32)> {
    let ns = numbers_in(s, ',', true, i64::MIN as int, i64::MAX as int);
    if ns.len() == 2 {
        Some((ns[0] as u32, ns[1] as u32))
    } else {
        None
    }
}

/// Reads a cell typed as `x,y`.
pub fn parse_cell(input: &str) -> (r: Option<(u32, u32)>)
    ensures
        r == cell_coordinates(input@),
{
    let ns = numbers_from(input, ',', true, i64::MIN, i64::MAX);
    if ns.len() == 2 {
        assert(ns@.map_values(|v: i64| v as int)[0] == ns@[0] as int);
        assert(ns@.map_values(|v: i64| v as int)[1] == ns@[1] as int);
        Some((ns[0] as u32, ns[1] as u32))
    } else {
        None
    }
}

/// A vector typed as `dx,dy`: exactly two pieces between commas must read as
/// 32-bit integers.
pub open spec fn vector(s: Seq<char>) -> Option<(i32, i32)> {
    let ns = numbers_in(s, ',', true, i32::MIN as int, i32::MAX as int);
    if ns.len() == 2 {
        Some((ns[0] as i32, ns[1] as i32))
    } else {
        None
    }
}

/// Reads a vector typed as `dx,dy`.
pub fn parse_vector(input: &str) -> (r: Option<(i32, i32)>)
    ensures
        r == vector(input@),
{
    let ns = numbers_from(input, ',', true, i32::MIN as i64, i32::MAX as i64);
    if ns.len() == 2 {
        assert(ns@.map_values(|v: i64| v as int)[0] == ns@[0] as int);
        assert(ns@.map_values(|v: i64| v as int)[1] == ns@[1] as int);
        Some((ns[0] as i32, ns[1] as i32))
    } else {
        None
    }
}

} // verus!
