use vstd::prelude::*;

use crate::http::api::{is_ws, ws};
use crate::text::{chars_match_at, chars_of, has_prefix};

verus! {

/// The words of a text, as `str::split_whitespace` gives them: the longest runs of
/// characters that are not white space.
pub open spec fn words(t: Seq<char>) -> Seq<Seq<char>>
    decreases t.len(),
{
    if t.len() == 0 {
        Seq::empty()
    } else {
        let w = words(t.drop_last());
        let c = t.last();
        if is_ws(c) {
            w
        } else if t.len() >= 2 && !is_ws(t[t.len() - 2]) {
            w.update(w.len() - 1, w.last().push(c))
        } else {
            w.push(seq![c])
        }
    }
}

/// The value of a run of decimal digits.
pub open spec fn digits_value(d: Seq<char>) -> nat
    decreases d.len(),
{
    if d.len() == 0 {
        0
    } else {
        digits_value(d.drop_last()) * 10 + (d.last() as nat - '0' as nat) as nat
    }
}

pub open spec fn all_digits(d: Seq<char>) -> bool {
    forall|i: int| 0 <= i < d.len() ==> '0' <= #[trigger] d[i] <= '9'
}

/// What `str::parse::<u64>` gives: an optional `+`, then at least one decimal digit,
/// of a value that fits.
pub open spec fn parse_u64(w: Seq<char>) -> Option<u64> {
    let d = if w.len() > 0 && w[0] == '+' { w.drop_first() } else { w };
    if d.len() > 0 && all_digits(d) && digits_value(d) <= u64::MAX {
        Some(digits_value(d) as u64)
    } else {
        None
    }
}

/// Where the line that starts at `i` ends: at the next newline, or at the end of the text.
pub open spec fn line_end(s: Seq<char>, i: int) -> int
    decreases s.len() - i,
{
    if i < 0 || i >= s.len() || s[i] == '\n' {
        i
    } else {
        line_end(s, i + 1)
    }
}

/// The line that starts at `i`, as `str::lines` gives it: without its newline, and without
/// a carriage return just before that newline.
pub open spec fn line_at(s: Seq<char>, i: int) -> Seq<char> {
    let e = line_end(s, i);
    let l = s.subrange(i, e);
    if e < s.len() && l.len() > 0 && l.last() == '\r' {
        l.drop_last()
    } else {
        l
    }
}

pub proof fn lemma_line_end_bounds(s: Seq<char>, i: int)
    requires
        0 <= i <= s.len(),
    ensures
        i <= line_end(s, i) <= s.len(),
    decreases s.len() - i,
{
    if i < s.len() && s[i] != '\n' {
        lemma_line_end_bounds(s, i + 1);
    }
}

/// The number in the first line from position `i` on that starts with `field` and has a
/// second word: that word read as a `u64`. `None` when there is no such line.
pub open spec fn field_search(s: Seq<char>, field: Seq<char>, i: int) -> Option<u64>
    decreases s.len() + 1 - i,
{
    if i < 0 || i >= s.len() {
        None
    } else {
        let l = line_at(s, i);
        if has_prefix(l, field) && words(l).len() >= 2 {
            parse_u64(words(l)[1])
        } else {
            proof {
                lemma_line_end_bounds(s, i);
            }
            field_search(s, field, line_end(s, i) + 1)
        }
    }
}

proof fn lemma_words_nonempty(t: Seq<char>)
    requires
        t.len() > 0,
        !is_ws(t.last()),
    ensures
        words(t).len() >= 1,
    decreases t.len(),
{
    if t.len() >= 2 && !is_ws(t[t.len() - 2]) {
        let u = t.drop_last();
        assert(u.last() == t[t.len() - 2]);
        lemma_words_nonempty(u);
    }
}

proof fn lemma_digits_prefix(d: Seq<char>, k: int)
    requires
        0 <= k <= d.len(),
    ensures
        digits_value(d.take(k)) <= digits_value(d),
    decreases d.len() - k,
{
    if k < d.len() {
        lemma_digits_prefix(d, k + 1);
        assert(d.take(k + 1).drop_last() =~= d.take(k));
    } else {
        assert(d.take(k) =~= d);
    }
}

/// The number that the digits `s[a..b]` (after an optional `+`) stand for.
fn parse_range(s: &Vec<char>, a: usize, b: usize) -> (r: Option<u64>)
    requires
        a <= b <= s@.len(),
    ensures
        r == parse_u64(s@.subrange(a as int, b as int)),
{
    let ghost w = s@.subrange(a as int, b as int);
    let mut i = a;
    if i < b && s[i] == '+' {
        i = i + 1;
    }
    let ghost d = s@.subrange(i as int, b as int);
    assert(d =~= if w.len() > 0 && w[0] == '+' { w.drop_first() } else { w });
    if i == b {
        return None;
    }
    let mut v: u64 = 0;
    let mut j = i;
    while j < b
        invariant
            a <= i <= j <= b <= s@.len(),
            w == s@.subrange(a as int, b as int),
            d == s@.subrange(i as int, b as int),
            d == if w.len() > 0 && w[0] == '+' { w.drop_first() } else { w },
            d.len() > 0,
            all_digits(d.take(j - i)),
            v as nat == digits_value(d.take(j - i)),
        decreases b - j,
    {
        let c = s[j];
        let ghost k = (j - i) as int;
        assert(d.take(k + 1).drop_last() =~= d.take(k));
        assert(d[k] == c);
        if c < '0' || c > '9' {
            assert(!all_digits(d));
            return None;
        }
        let digit: u64 = (c as u32 - '0' as u32) as u64;
        let m = v.checked_mul(10);
        match m {
            Some(m) => {
                match m.checked_add(digit) {
                    Some(n) => {
                        v = n;
                    },
                    None => {
                        proof {
                            lemma_digits_prefix(d, k + 1);
                        }
                        return None;
                    },
                }
            },
            None => {
                proof {
                    lemma_digits_prefix(d, k + 1);
                }
                return None;
            },
        }
        j = j + 1;
    }
    assert(d.take(b - i) =~= d);
    Some(v)
}

/// The bounds of word `n` (counting from 0) of `s[lo..hi]`, when it has that many words.
fn word_bounds(s: &Vec<char>, lo: usize, hi: usize, n: usize) -> (r: Option<(usize, usize)>)
    requires
        lo <= hi <= s@.len(),
        n < usize::MAX,
    ensures
        (r is Some) == (words(s@.subrange(lo as int, hi as int)).len() > n),
        r matches Some((a, b)) ==> lo <= a <= b <= hi && words(s@.subrange(lo as int, hi as int))[n as int] == s@.subrange(a as int, b as int),
{
    let mut cnt: usize = 0;
    let mut in_word = false;
    let mut a: usize = lo;
    let mut b: usize = lo;
    let mut j = lo;
    while j < hi
        invariant
            lo <= j <= hi <= s@.len(),
            n < usize::MAX,
            cnt == words(s@.subrange(lo as int, j as int)).len(),
            cnt <= j - lo,
            in_word == (j > lo && !is_ws(s@[j - 1])),
            in_word ==> cnt >= 1,
            cnt > n ==> lo <= a <= b <= j && words(s@.subrange(lo as int, j as int))[n as int] == s@.subrange(a as int, b as int),
            (cnt == n + 1 && in_word) ==> b == j,
        decreases hi - j,
    {
        let c = s[j];
        let ghost t = s@.subrange(lo as int, j as int);
        let ghost t2 = s@.subrange(lo as int, j + 1);
        assert(t2.drop_last() =~= t);
        assert(t2.last() == c);
        if j > lo {
            assert(t2[t2.len() - 2] == s@[j - 1]);
        }
        if ws(c) {
            in_word = false;
        } else if in_word {
            if cnt == n + 1 {
                assert(s@.subrange(a as int, j + 1) =~= s@.subrange(a as int, j as int).push(c));
                b = j + 1;
            }
        } else {
            cnt = cnt + 1;
            if cnt == n + 1 {
                a = j;
                b = j + 1;
                assert(s@.subrange(j as int, j + 1) =~= seq![c]);
            }
            in_word = true;
        }
        j = j + 1;
    }
    if cnt > n {
        Some((a, b))
    } else {
        None
    }
}

/// Whether `s[a..b]` is the text `k`.
fn range_is(s: &Vec<char>, a: usize, b: usize, k: &Vec<char>) -> (r: bool)
    requires
        a <= b <= s@.len(),
    ensures
        r == (s@.subrange(a as int, b as int) == k@),
{
    if b - a != k.len() {
        return false;
    }
    let m = chars_match_at(s, a, k);
    assert(s@.skip(a as int).subrange(0, k@.len() as int) =~= s@.subrange(a as int, b as int));
    m
}

/// The end of the line that starts at `i`, and the end of its text without a carriage
/// return before the newline.
fn line_bounds(s: &Vec<char>, i: usize) -> (r: (usize, usize))
    requires
        i < s@.len(),
    ensures
        r.0 == line_end(s@, i as int),
        i <= r.1 <= r.0 <= s@.len(),
        line_at(s@, i as int) == s@.subrange(i as int, r.1 as int),
{
    let mut e = i;
    while e < s.len() && s[e] != '\n'
        invariant
            i <= e <= s@.len(),
            line_end(s@, e as int) == line_end(s@, i as int),
        decreases s@.len() - e,
    {
        e = e + 1;
    }
    assert(line_end(s@, e as int) == e);
    let mut le = e;
    if e < s.len() && le > i && s[le - 1] == '\r' {
        le = le - 1;
    }
    assert(line_at(s@, i as int) =~= s@.subrange(i as int, le as int));
    (e, le)
}

/// The value of a field in the text of a `/proc` file such as `/proc/meminfo`: the second
/// word of the first line that starts with `field` and has one, read as a number.
pub fn proc_field_value(content: &str, field: &str) -> (r: Option<u64>)
    ensures
        r == field_search(content@, field@, 0),
{
    let s = chars_of(content);
    let f = chars_of(field);
    let ghost sv = s@;
    let mut i: usize = 0;
    while i < s.len()
        invariant
            sv == s@,
            sv == content@,
            f@ == field@,
            i <= sv.len(),
            field_search(sv, f@, 0) == field_search(sv, f@, i as int),
        decreases sv.len() - i,
    {
        let (e, le) = line_bounds(&s, i);
        let ghost l = line_at(sv, i as int);
        let starts = f.len() <= le - i && chars_match_at(&s, i, &f);
        proof {
            if f@.len() <= le - i {
                assert(sv.skip(i as int).subrange(0, f@.len() as int) =~= l.subrange(0, f@.len() as int));
            }
        }
        if starts {
            match word_bounds(&s, i, le, 1) {
                Some((a, b)) => {
                    return parse_range(&s, a, b);
                },
                None => {},
            }
        }
        if e >= s.len() {
            assert(field_search(sv, f@, e + 1) is None);
            return None;
        }
        i = e + 1;
    }
    None
}

/// The number on a line whose first word is `key`: its second word read as a `u64`.
pub open spec fn line_value(l: Seq<char>, key: Seq<char>) -> Option<u64> {
    let w = words(l);
    if w.len() >= 2 && w[0] == key {
        parse_u64(w[1])
    } else {
        None
    }
}

/// The number of the last line from position `i` on whose first word is `key` and whose
/// second word is a number.
pub open spec fn last_value(s: Seq<char>, key: Seq<char>, i: int) -> Option<u64>
    decreases s.len() + 1 - i,
{
    if i < 0 || i >= s.len() {
        None
    } else {
        proof {
            lemma_line_end_bounds(s, i);
        }
        let later = last_value(s, key, line_end(s, i) + 1);
        if later is Some {
            later
        } else {
            line_value(line_at(s, i), key)
        }
    }
}

/// The value of `key` in a file of `key value` lines such as `/proc/self/status` or
/// `/proc/meminfo`: the number on the last line whose first word is `key` and whose
/// second word is a number.
pub fn status_value(content: &str, key: &str) -> (r: Option<u64>)
    ensures
        r == last_value(content@, key@, 0),
{
    let s = chars_of(content);
    let k = chars_of(key);
    let ghost sv = s@;
    let mut found: Option<u64> = None;
    let mut i: usize = 0;
    while i < s.len()
        invariant
            sv == s@,
            sv == content@,
            k@ == key@,
            i <= sv.len(),
            last_value(sv, k@, 0) == if last_value(sv, k@, i as int) is Some { last_value(sv, k@, i as int) } else { found },
        decreases sv.len() - i,
    {
        let (e, le) = line_bounds(&s, i);
        let ghost l = line_at(sv, i as int);
        let mut v: Option<u64> = None;
        match word_bounds(&s, i, le, 1) {
            Some((a1, b1)) => {
                match word_bounds(&s, i, le, 0) {
                    Some((a0, b0)) => {
                        if range_is(&s, a0, b0, &k) {
                            v = parse_range(&s, a1, b1);
                        }
                    },
                    None => {},
                }
            },
            None => {},
        }
        assert(v == line_value(l, k@));
        if v.is_some() {
            found = v;
        }
        if e >= s.len() {
            assert(last_value(sv, k@, e + 1) is None);
            return found;
        }
        i = e + 1;
    }
    found
}

/// The number of lines from position `i` on that start with `prefix`.
pub open spec fn count_prefixed(s: Seq<char>, prefix: Seq<char>, i: int) -> nat
    decreases s.len() + 1 - i,
{
    if i < 0 || i >= s.len() {
        0
    } else {
        proof {
            lemma_line_end_bounds(s, i);
        }
        (if has_prefix(line_at(s, i), prefix) { 1nat } else { 0nat }) + count_prefixed(s, prefix, line_end(s, i) + 1)
    }
}

proof fn lemma_count_prefixed_bound(s: Seq<char>, prefix: Seq<char>, i: int)
    requires
        0 <= i,
    ensures
        count_prefixed(s, prefix, i) <= if i < s.len() { s.len() - i } else { 0 },
    decreases s.len() + 1 - i,
{
    if i < s.len() {
        lemma_line_end_bounds(s, i);
        lemma_count_prefixed_bound(s, prefix, line_end(s, i) + 1);
    }
}

/// The number of lines that start with `prefix`, such as the `processor` lines of
/// `/proc/cpuinfo`.
pub fn count_prefixed_lines(content: &str, prefix: &str) -> (r: usize)
    ensures
        r == count_prefixed(content@, prefix@, 0),
{
    let s = chars_of(content);
    let p = chars_of(prefix);
    let ghost sv = s@;
    let mut n: usize = 0;
    let mut i: usize = 0;
    while i < s.len()
        invariant
            sv == s@,
            sv == content@,
            p@ == prefix@,
            i <= sv.len(),
            n <= i,
            count_prefixed(sv, p@, 0) == n + count_prefixed(sv, p@, i as int),
        decreases sv.len() - i,
    {
        let (e, le) = line_bounds(&s, i);
        let ghost l = line_at(sv, i as int);
        let starts = p.len() <= le - i && chars_match_at(&s, i, &p);
        proof {
            if p@.len() <= le - i {
                assert(sv.skip(i as int).subrange(0, p@.len() as int) =~= l.subrange(0, p@.len() as int));
            }
        }
        if starts {
            n = n + 1;
        }
        if e >= s.len() {
            assert(count_prefixed(sv, p@, e + 1) == 0);
            return n;
        }
        i = e + 1;
    }
    n
}

/// The position of the last `c` in `s`, or -1.
pub open spec fn last_index_of(s: Seq<char>, c: char) -> int
    decreases s.len(),
{
    if s.len() == 0 {
        -1
    } else if s.last() == c {
        s.len() - 1
    } else {
        last_index_of(s.drop_last(), c)
    }
}

proof fn lemma_last_index_bounds(s: Seq<char>, c: char)
    ensures
        -1 <= last_index_of(s, c) < s.len(),
        last_index_of(s, c) >= 0 ==> s[last_index_of(s, c)] == c,
    decreases s.len(),
{
    if s.len() > 0 && s.last() != c {
        lemma_last_index_bounds(s.drop_last(), c);
    }
}

/// Whether the text of `/proc/self/stat` can be cut after its command name: it has no `)`,
/// or a one-byte character follows the last `)`.
pub open spec fn stat_cuttable(s: Seq<char>) -> bool {
    let c = last_index_of(s, ')');
    c < 0 || (c + 1 < s.len() && (s[c + 1] as u32) < 128)
}

/// The user and system CPU ticks in the text of `/proc/self/stat`: the 12th and 13th
/// words after the character that follows the last `)`. `None` when there is no `)`;
/// `Some(None)` when those words are missing or are not numbers.
pub open spec fn stat_ticks(s: Seq<char>) -> Option<Option<(u64, u64)>> {
    let c = last_index_of(s, ')');
    if c < 0 {
        None
    } else {
        let w = words(s.subrange(c + 2, s.len() as int));
        if w.len() > 12 && parse_u64(w[11]) is Some && parse_u64(w[12]) is Some {
            Some(Some((parse_u64(w[11])->0, parse_u64(w[12])->0)))
        } else {
            Some(None)
        }
    }
}

/// The CPU ticks of the process in the text of `/proc/self/stat`.
pub fn stat_cpu_ticks(stat: &str) -> (r: Option<Option<(u64, u64)>>)
    requires
        stat_cuttable(stat@),
    ensures
        r == stat_ticks(stat@),
{
    let s = chars_of(stat);
    proof {
        lemma_last_index_bounds(s@, ')');
    }
    let mut i = s.len();
    assert(s@.take(i as int) =~= s@);
    while i > 0 && s[i - 1] != ')'
        invariant
            i <= s@.len(),
            last_index_of(s@, ')') == last_index_of(s@.take(i as int), ')'),
        decreases i,
    {
        assert(s@.take(i as int).drop_last() =~= s@.take(i - 1));
        i = i - 1;
    }
    if i == 0 {
        assert(s@.take(0) =~= Seq::<char>::empty());
        return None;
    }
    assert(s@.take(i as int).last() == ')');
    let c = i - 1;
    let start = c + 2;
    match word_bounds(&s, start, s.len(), 12) {
        Some((a12, b12)) => {
            let (a11, b11) = match word_bounds(&s, start, s.len(), 11) {
                Some(p) => p,
                None => {
                    return Some(None);
                },
            };
            let u = parse_range(&s, a11, b11);
            let t = parse_range(&s, a12, b12);
            match (u, t) {
                (Some(u), Some(t)) => Some(Some((u, t))),
                _ => Some(None),
            }
        },
        None => Some(None),
    }
}

/// The CPU time of ticks of a hundredth of a second, in milliseconds.
pub open spec fn ticks_ms(ticks: u64) -> int {
    (ticks * 1000) / 100
}

/// User, system and total CPU milliseconds from user and system ticks.
pub fn cpu_ms(user_ticks: u64, system_ticks: u64) -> (r: (u64, u64, u64))
    requires
        user_ticks * 1000 <= u64::MAX,
        system_ticks * 1000 <= u64::MAX,
    ensures
        r.0 == ticks_ms(user_ticks),
        r.1 == ticks_ms(system_ticks),
        r.2 == r.0 + r.1,
{
    let user = user_ticks * 1000 / 100;
    let system = system_ticks * 1000 / 100;
    (user, system, user + system)
}

/// A size read in kibibytes, in bytes.
pub fn kb_to_bytes(kb: u64) -> (r: u64)
    requires
        kb * 1024 <= u64::MAX,
    ensures
        r == kb * 1024,
{
    kb * 1024
}

} // verus!
