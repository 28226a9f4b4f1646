use vstd::prelude::*;

verus! {

/// Letters of a unit name: ASCII letters, and '|'.
pub open spec fn is_letter(c: char) -> bool {
    ('A' <= c && c <= 'Z') || ('a' <= c && c <= 'z') || c == '|'
}

/// Characters that may introduce a unit term: '/', '|' or '*'.
pub open spec fn is_lead(c: char) -> bool {
    c == '/' || c == '|' || c == '*'
}

pub open spec fn is_digit(c: char) -> bool {
    '0' <= c && c <= '9'
}

pub open spec fn digit_value(c: char) -> nat {
    (c as int - '0' as int) as nat
}

/// The value of a sequence of decimal digits (0 for the empty sequence).
pub open spec fn digits_value(d: Seq<char>) -> nat
    decreases d.len(),
{
    if d.len() == 0 {
        0
    } else {
        digits_value(d.drop_last()) * 10 + digit_value(d.last())
    }
}

pub open spec fn all_digits(d: Seq<char>) -> bool {
    forall|k: int| 0 <= k < d.len() ==> is_digit(#[trigger] d[k])
}

/// The value of a machine integer written in decimal, with an optional sign,
/// when the text is one (as the standard library reads it).
pub open spec fn isize_text(t: Seq<char>) -> Option<int> {
    let neg = t.len() > 0 && t[0] == '-';
    let body = if t.len() > 0 && (t[0] == '-' || t[0] == '+') { t.drop_first() } else { t };
    let v: int = if neg { -(digits_value(body) as int) } else { digits_value(body) as int };
    if body.len() > 0 && all_digits(body) && isize::MIN <= v <= isize::MAX {
        Some(v)
    } else {
        None
    }
}

/// Position after the run of letters starting at `i`.
pub open spec fn letters_end(s: Seq<char>, i: int) -> int
    decreases s.len() - i,
{
    if i < 0 || i >= s.len() || !is_letter(s[i]) { i } else { letters_end(s, i + 1) }
}

/// Position after the run of digits starting at `i`.
pub open spec fn digits_end(s: Seq<char>, i: int) -> int
    decreases s.len() - i,
{
    if i < 0 || i >= s.len() || !is_digit(s[i]) { i } else { digits_end(s, i + 1) }
}

/// End of a term whose letters start at `l`: letters, an optional '^', digits.
pub open spec fn term_end_from(s: Seq<char>, l: int) -> int {
    let e = letters_end(s, l);
    let c = if e < s.len() && s[e] == '^' { e + 1 } else { e };
    digits_end(s, c)
}

/// End of the term starting exactly at `i` (`i` itself when no term starts there).
/// A term is an optional '/', '|' or '*', letters, an optional '^' and digits,
/// as long as possible.
pub open spec fn term_end(s: Seq<char>, i: int) -> int {
    if 0 <= i && i + 1 < s.len() && is_lead(s[i]) && is_letter(s[i + 1]) {
        term_end_from(s, i + 1)
    } else if 0 <= i < s.len() && is_letter(s[i]) {
        term_end_from(s, i)
    } else {
        i
    }
}

proof fn lemma_letters_end(s: Seq<char>, i: int)
    requires
        0 <= i <= s.len(),
    ensures
        i <= letters_end(s, i) <= s.len(),
        forall|j: int| i <= j < letters_end(s, i) ==> is_letter(#[trigger] s[j]),
        letters_end(s, i) < s.len() ==> !is_letter(s[letters_end(s, i)]),
    decreases s.len() - i,
{
    if i < s.len() && is_letter(s[i]) {
        lemma_letters_end(s, i + 1);
    }
}

proof fn lemma_digits_end(s: Seq<char>, i: int)
    requires
        0 <= i <= s.len(),
    ensures
        i <= digits_end(s, i) <= s.len(),
        forall|j: int| i <= j < digits_end(s, i) ==> is_digit(#[trigger] s[j]),
        digits_end(s, i) < s.len() ==> !is_digit(s[digits_end(s, i)]),
    decreases s.len() - i,
{
    if i < s.len() && is_digit(s[i]) {
        lemma_digits_end(s, i + 1);
    }
}

/// A term found at `i` ends no earlier than `i` and within the text.
pub proof fn lemma_term_end(s: Seq<char>, i: int)
    requires
        0 <= i < s.len(),
    ensures
        i <= term_end(s, i) <= s.len(),
{
    if i + 1 < s.len() && is_lead(s[i]) && is_letter(s[i + 1]) {
        lemma_letters_end(s, i + 1);
        let e = letters_end(s, i + 1);
        let c = if e < s.len() && s[e] == '^' { e + 1 } else { e };
        lemma_digits_end(s, c);
    } else if is_letter(s[i]) {
        lemma_letters_end(s, i);
        let e = letters_end(s, i);
        let c = if e < s.len() && s[e] == '^' { e + 1 } else { e };
        lemma_digits_end(s, c);
    }
}

/// The successive, non-overlapping terms of `s` from position `i`, leftmost first.
pub open spec fn terms(s: Seq<char>, i: int) -> Seq<Seq<char>>
    decreases s.len() - i,
{
    if i < 0 || i >= s.len() {
        Seq::empty()
    } else if term_end(s, i) > i {
        proof {
            lemma_term_end(s, i);
        }
        seq![s.subrange(i, term_end(s, i))] + terms(s, term_end(s, i))
    } else {
        terms(s, i + 1)
    }
}

/// A term without its leading '/' or '*'.
pub open spec fn term_body(t: Seq<char>) -> Seq<char> {
    if t.len() > 0 && (t[0] == '/' || t[0] == '*') { t.drop_first() } else { t }
}

/// Position of the first '^' in `t`, if any.
#[verifier::opaque]
pub open spec fn caret_pos(t: Seq<char>) -> Option<int> {
    if exists|k: int| 0 <= k < t.len() && t[k] == '^' {
        Some(choose|k: int| 0 <= k < t.len() && t[k] == '^' && forall|j: int| 0 <= j < k ==> t[j] != '^')
    } else {
        None
    }
}

/// The unit name of a term.
pub open spec fn term_key(t: Seq<char>) -> Seq<char> {
    match caret_pos(term_body(t)) {
        Some(c) => term_body(t).subrange(0, c),
        None => term_body(t),
    }
}

/// The exponent of a term: -1 after '/', 1 otherwise, times the number after '^'.
pub open spec fn term_exponent(t: Seq<char>) -> int {
    let sign: int = if t.len() > 0 && t[0] == '/' { -1 } else { 1 };
    match caret_pos(term_body(t)) {
        Some(c) => sign * digits_value(term_body(t).subrange(c + 1, term_body(t).len() as int)) as int,
        None => sign,
    }
}

/// A term can be read: a '^' is followed by a number that fits a machine integer.
pub open spec fn term_readable(t: Seq<char>) -> bool {
    match caret_pos(term_body(t)) {
        Some(c) => {
            let d = term_body(t).subrange(c + 1, term_body(t).len() as int);
            d.len() > 0 && all_digits(d) && digits_value(d) <= isize::MAX
        },
        None => true,
    }
}

/// Record exponent `v` for name `k`: replaced in place when `k` is already
/// there, appended otherwise.
pub open spec fn assoc_insert(m: Seq<(Seq<char>, int)>, k: Seq<char>, v: int) -> Seq<(Seq<char>, int)> {
    if exists|j: int| 0 <= j < m.len() && m[j].0 == k {
        let j = choose|j: int| 0 <= j < m.len() && m[j].0 == k;
        m.update(j, (k, v))
    } else {
        m.push((k, v))
    }
}

/// The names and exponents of a sequence of terms; a later term for the same
/// name replaces an earlier one.
pub open spec fn terms_map(ts: Seq<Seq<char>>) -> Seq<(Seq<char>, int)>
    decreases ts.len(),
{
    if ts.len() == 0 {
        Seq::empty()
    } else {
        assoc_insert(terms_map(ts.drop_last()), term_key(ts.last()), term_exponent(ts.last()))
    }
}

/// No name occurs twice.
pub open spec fn unique_keys(m: Seq<(Seq<char>, int)>) -> bool {
    forall|a: int, b: int| 0 <= a < m.len() && 0 <= b < m.len() && a != b ==> #[trigger] m[a].0 != #[trigger] m[b].0
}


/// The characters of a string.
pub fn chars_of(s: &str) -> (v: Vec<char>)
    ensures
        v@ == s@,
{
    let n = s.unicode_len();
    let mut v: Vec<char> = Vec::new();
    let mut i: usize = 0;
    while i < n
        invariant
            n == s@.len(),
            i <= n,
            v@ == s@.subrange(0, i as int),
        decreases n - i,
    {
        v.push(s.get_char(i));
        i = i + 1;
        assert(v@ =~= s@.subrange(0, i as int));
    }
    assert(s@.subrange(0, n as int) =~= s@);
    v
}

/// A bound above the magnitude of every machine integer.
pub open spec fn cap() -> nat {
    0x1_0000_0000_0000_0000
}

pub open spec fn capped(v: nat) -> nat {
    if v < cap() { v } else { cap() }
}

/// The value of the digits `c[from..to]`, capped.
fn digits_capped(c: &Vec<char>, from: usize, to: usize) -> (r: u128)
    requires
        from <= to <= c@.len(),
        all_digits(c@.subrange(from as int, to as int)),
    ensures
        r == capped(digits_value(c@.subrange(from as int, to as int))),
{
    let mut acc: u128 = 0;
    let mut k: usize = from;
    while k < to
        invariant
            from <= k <= to <= c@.len(),
            all_digits(c@.subrange(from as int, to as int)),
            acc == capped(digits_value(c@.subrange(from as int, k as int))),
        decreases to - k,
    {
        let ghost pre = c@.subrange(from as int, k as int);
        let ghost next = c@.subrange(from as int, k + 1);
        assert(next.drop_last() =~= pre);
        assert(c@.subrange(from as int, to as int)[k - from] == c@[k as int]);
        assert(is_digit(c@[k as int]));
        let d = (c[k] as u32 - '0' as u32) as u128;
        assert(d == digit_value(next.last()));
        if acc >= 0x1_0000_0000_0000_0000u128 {
            assert(digits_value(next) >= digits_value(pre)) by (nonlinear_arith)
                requires digits_value(next) == digits_value(pre) * 10 + d;
            acc = 0x1_0000_0000_0000_0000u128;
        } else {
            let t = acc * 10 + d;
            if t >= 0x1_0000_0000_0000_0000u128 {
                acc = 0x1_0000_0000_0000_0000u128;
            } else {
                acc = t;
            }
        }
        k = k + 1;
    }
    acc
}

/// Whether `c[from..to]` are all decimal digits.
fn all_digits_in(c: &Vec<char>, from: usize, to: usize) -> (b: bool)
    requires
        from <= to <= c@.len(),
    ensures
        b == all_digits(c@.subrange(from as int, to as int)),
{
    let mut k: usize = from;
    while k < to
        invariant
            from <= k <= to <= c@.len(),
            all_digits(c@.subrange(from as int, k as int)),
        decreases to - k,
    {
        if !('0' <= c[k] && c[k] <= '9') {
            assert(!is_digit(c@.subrange(from as int, to as int)[k - from]));
            return false;
        }
        k = k + 1;
        assert forall|j: int| 0 <= j < k - from implies is_digit(#[trigger] c@.subrange(from as int, k as int)[j]) by {
            if j < k - 1 - from {
                assert(c@.subrange(from as int, (k - 1) as int)[j] == c@.subrange(from as int, k as int)[j]);
            }
        }
    }
    true
}

/// The unsigned number written `c[from..to]`, when it fits a machine integer.
pub fn parse_digits(c: &Vec<char>, from: usize, to: usize) -> (r: Option<isize>)
    requires
        from <= to <= c@.len(),
    ensures
        ({
            let d = c@.subrange(from as int, to as int);
            match r {
                Some(v) => d.len() > 0 && all_digits(d) && v == digits_value(d),
                None => !(d.len() > 0 && all_digits(d) && digits_value(d) <= isize::MAX),
            }
        }),
{
    if from == to || !all_digits_in(c, from, to) {
        return None;
    }
    let v = digits_capped(c, from, to);
    if v <= isize::MAX as u128 {
        Some(v as isize)
    } else {
        None
    }
}

/// The integer written `c[from..to]` with an optional sign, as the standard
/// library reads a machine integer.
pub fn parse_isize(c: &Vec<char>, from: usize, to: usize) -> (r: Option<isize>)
    requires
        from <= to <= c@.len(),
    ensures
        r is Some <==> isize_text(c@.subrange(from as int, to as int)) is Some,
        r matches Some(v) ==> isize_text(c@.subrange(from as int, to as int)) == Some(v as int),
{
    let ghost t = c@.subrange(from as int, to as int);
    let neg = from < to && c[from] == '-';
    let signed = from < to && (c[from] == '-' || c[from] == '+');
    let start = if signed { from + 1 } else { from };
    proof {
        if signed {
            assert(c@.subrange(start as int, to as int) =~= t.drop_first());
        } else {
            assert(c@.subrange(start as int, to as int) =~= t);
        }
    }
    if start == to || !all_digits_in(c, start, to) {
        return None;
    }
    let v = digits_capped(c, start, to);
    if neg {
        if v <= isize::MAX as u128 {
            Some(-(v as isize))
        } else if v == isize::MAX as u128 + 1 {
            Some(isize::MIN)
        } else {
            None
        }
    } else {
        if v <= isize::MAX as u128 {
            Some(v as isize)
        } else {
            None
        }
    }
}


/// Names and exponents as plain values.
pub open spec fn map_view(m: Seq<(String, isize)>) -> Seq<(Seq<char>, int)> {
    m.map_values(|p: (String, isize)| (p.0@, p.1 as int))
}

/// Every term of `s` can be read.
pub open spec fn terms_readable(s: Seq<char>) -> bool {
    forall|k: int| 0 <= k < terms(s, 0).len() ==> term_readable(#[trigger] terms(s, 0)[k])
}

fn letters_end_exec(c: &Vec<char>, i: usize) -> (e: usize)
    requires
        i <= c@.len(),
    ensures
        e == letters_end(c@, i as int),
{
    let mut e = i;
    while e < c.len() && (('A' <= c[e] && c[e] <= 'Z') || ('a' <= c[e] && c[e] <= 'z') || c[e] == '|')
        invariant
            i <= e <= c@.len(),
            letters_end(c@, e as int) == letters_end(c@, i as int),
        decreases c@.len() - e,
    {
        e = e + 1;
    }
    e
}

fn digits_end_exec(c: &Vec<char>, i: usize) -> (e: usize)
    requires
        i <= c@.len(),
    ensures
        e == digits_end(c@, i as int),
{
    let mut e = i;
    while e < c.len() && '0' <= c[e] && c[e] <= '9'
        invariant
            i <= e <= c@.len(),
            digits_end(c@, e as int) == digits_end(c@, i as int),
        decreases c@.len() - e,
    {
        e = e + 1;
    }
    e
}

fn term_end_exec(c: &Vec<char>, i: usize) -> (e: usize)
    requires
        i < c@.len(),
    ensures
        e == term_end(c@, i as int),
{
    proof { lemma_term_end(c@, i as int); }
    let n = c.len();
    let l = if n - i > 1 && (c[i] == '/' || c[i] == '|' || c[i] == '*')
        && (('A' <= c[i + 1] && c[i + 1] <= 'Z') || ('a' <= c[i + 1] && c[i + 1] <= 'z') || c[i + 1] == '|') {
        i + 1
    } else if ('A' <= c[i] && c[i] <= 'Z') || ('a' <= c[i] && c[i] <= 'z') || c[i] == '|' {
        i
    } else {
        return i;
    };
    proof { lemma_letters_end(c@, l as int); }
    let le = letters_end_exec(c, l);
    let ce = if le < c.len() && c[le] == '^' { le + 1 } else { le };
    digits_end_exec(c, ce)
}

/// Position of the first '^' in `c[from..to]`, if any.
fn find_caret(c: &Vec<char>, from: usize, to: usize) -> (r: Option<usize>)
    requires
        from <= to <= c@.len(),
    ensures
        caret_pos(c@.subrange(from as int, to as int)) == (match r { Some(k) => Some(k - from), None => None::<int> }),
        r matches Some(k) ==> from <= k < to,
{
    let ghost t = c@.subrange(from as int, to as int);
    proof { reveal(caret_pos); }
    let mut k = from;
    while k < to
        invariant
            from <= k <= to <= c@.len(),
            t == c@.subrange(from as int, to as int),
            forall|j: int| 0 <= j < k - from ==> t[j] != '^',
        decreases to - k,
    {
        if c[k] == '^' {
            proof {
                reveal(caret_pos);
                let p = (k - from) as int;
                assert(t[p] == '^');
                assert(forall|j: int| 0 <= j < p ==> t[j] != '^');
                assert(exists|q: int| 0 <= q < t.len() && t[q] == '^' && forall|j: int| 0 <= j < q ==> t[j] != '^');
                let q = choose|q: int| 0 <= q < t.len() && t[q] == '^' && forall|j: int| 0 <= j < q ==> t[j] != '^';
                if q < p {
                    assert(t[q] != '^');
                } else if q > p {
                    assert(t[p] != '^');
                }
            }
            return Some(k);
        }
        k = k + 1;
    }
    proof {
        reveal(caret_pos);
        assert forall|j: int| 0 <= j < t.len() implies t[j] != '^' by {}
    }
    None
}

/// Record exponent `v` for name `k` in `m`.
fn assoc_insert_exec(m: &mut Vec<(String, isize)>, k: String, v: isize)
    requires
        unique_keys(map_view(old(m)@)),
    ensures
        map_view(final(m)@) == assoc_insert(map_view(old(m)@), k@, v as int),
        unique_keys(map_view(final(m)@)),
{
    let ghost mv = map_view(m@);
    let mut j: usize = 0;
    while j < m.len()
        invariant
            j <= m@.len(),
            mv == map_view(m@),
            mv == map_view(old(m)@),
            unique_keys(mv),
            forall|q: int| 0 <= q < j ==> mv[q].0 != k@,
        decreases m@.len() - j,
    {
        if m[j].0 == k {
            proof {
                assert(mv[j as int].0 == k@);
                assert(exists|q: int| 0 <= q < mv.len() && mv[q].0 == k@);
                let q = choose|q: int| 0 <= q < mv.len() && mv[q].0 == k@;
                if q != j as int {
                    assert(mv[q].0 != mv[j as int].0);
                }
                assert(q == j as int);
                assert(assoc_insert(mv, k@, v as int) == mv.update(j as int, (k@, v as int)));
            }
            m.set(j, (k, v));
            proof {
                assert(map_view(m@) =~= mv.update(j as int, (k@, v as int)));
                assert forall|a: int, b: int| 0 <= a < map_view(m@).len() && 0 <= b < map_view(m@).len() && a != b
                    implies #[trigger] map_view(m@)[a].0 != #[trigger] map_view(m@)[b].0 by {
                    assert(mv[a].0 != mv[b].0);
                }
            }
            return;
        }
        j = j + 1;
    }
    m.push((k, v));
    proof {
        assert(!exists|q: int| 0 <= q < mv.len() && mv[q].0 == k@);
        assert(map_view(m@) =~= mv.push((k@, v as int)));
        assert forall|a: int, b: int| 0 <= a < map_view(m@).len() && 0 <= b < map_view(m@).len() && a != b
            implies #[trigger] map_view(m@)[a].0 != #[trigger] map_view(m@)[b].0 by {
            if a < mv.len() && b < mv.len() {
                assert(mv[a].0 != mv[b].0);
            }
        }
    }
}


/// The name and exponent of the term `c[i..e]`, when it can be read.
fn read_term(d: &str, c: &Vec<char>, i: usize, e: usize) -> (r: Option<(String, isize)>)
    requires
        c@ == d@,
        i < e <= c@.len(),
    ensures
        ({
            let t = c@.subrange(i as int, e as int);
            match r {
                Some(p) => term_readable(t) && p.0@ == term_key(t) && p.1 as int == term_exponent(t),
                None => !term_readable(t),
            }
        }),
{
    let ghost t = c@.subrange(i as int, e as int);
    let neg = c[i] == '/';
    let b = if c[i] == '/' || c[i] == '*' { i + 1 } else { i };
    let ghost body = c@.subrange(b as int, e as int);
    assert(t[0] == c@[i as int]);
    assert(term_body(t) =~= body);
    let ghost sign: int = if neg { -1 } else { 1 };
    assert(sign == (if t.len() > 0 && t[0] == '/' { -1int } else { 1int }));
    let caret = find_caret(c, b, e);
    match caret {
        Some(k) => {
            let ghost ck = (k - b) as int;
            assert(caret_pos(body) == Some(ck));
            let key = d.substring_char(b, k).to_owned();
            assert(key@ =~= body.subrange(0, ck));
            assert(term_key(t) == body.subrange(0, ck));
            let ghost digits = c@.subrange(k + 1, e as int);
            assert(body.subrange(ck + 1, body.len() as int) =~= digits);
            assert(term_exponent(t) == sign * digits_value(digits) as int);
            assert(term_readable(t) == (digits.len() > 0 && all_digits(digits) && digits_value(digits) <= isize::MAX));
            match parse_digits(c, k + 1, e) {
                Some(v) => {
                    let exp = if neg { -v } else { v };
                    Some((key, exp))
                },
                None => None,
            }
        },
        None => {
            assert(caret_pos(body) is None);
            let key = d.substring_char(b, e).to_owned();
            assert(key@ =~= body);
            let exp: isize = if neg { -1 } else { 1 };
            Some((key, exp))
        },
    }
}

/// The names and exponents of the terms of `d`, when every term can be read.
pub fn scan_terms(d: &str) -> (r: Option<Vec<(String, isize)>>)
    ensures
        match r {
            Some(m) => terms_readable(d@) && map_view(m@) == terms_map(terms(d@, 0))
                && unique_keys(map_view(m@)),
            None => !terms_readable(d@),
        },
{
    let c = chars_of(d);
    let n = c.len();
    let mut m: Vec<(String, isize)> = Vec::new();
    let mut i: usize = 0;
    let ghost mut done: Seq<Seq<char>> = Seq::empty();
    assert(map_view(m@) =~= terms_map(done));
    while i < n
        invariant
            n == c@.len(),
            c@ == d@,
            i <= n,
            terms(c@, 0) == done + terms(c@, i as int),
            map_view(m@) == terms_map(done),
            unique_keys(map_view(m@)),
            forall|k: int| 0 <= k < done.len() ==> term_readable(#[trigger] done[k]),
        decreases n - i,
    {
        let e = term_end_exec(&c, i);
        proof { lemma_term_end(c@, i as int); }
        if e > i {
            let ghost t = c@.subrange(i as int, e as int);
            assert(terms(c@, i as int) == seq![t] + terms(c@, e as int));
            match read_term(d, &c, i, e) {
                Some(p) => {
                    let (key, exp) = p;
                    assoc_insert_exec(&mut m, key, exp);
                    proof {
                        let nd = done.push(t);
                        assert(nd.drop_last() =~= done);
                        assert(nd + terms(c@, e as int) =~= done + (seq![t] + terms(c@, e as int)));
                        done = nd;
                    }
                    i = e;
                },
                None => {
                    proof {
                        let all = terms(c@, 0);
                        assert(all[done.len() as int] == t);
                    }
                    return None;
                },
            }
        } else {
            i = i + 1;
        }
    }
    proof {
        assert(done + terms(c@, n as int) =~= done);
        assert(terms(d@, 0) == done);
    }
    Some(m)
}


/// Position of the first space in `t`, if any.
#[verifier::opaque]
pub open spec fn space_pos(t: Seq<char>) -> Option<int> {
    if exists|k: int| 0 <= k < t.len() && t[k] == ' ' {
        Some(choose|k: int| 0 <= k < t.len() && t[k] == ' ' && forall|j: int| 0 <= j < k ==> t[j] != ' ')
    } else {
        None
    }
}

/// Position of the first 'e' or 'E' in `t`, if any.
#[verifier::opaque]
pub open spec fn marker_pos(t: Seq<char>) -> Option<int> {
    if exists|k: int| 0 <= k < t.len() && (t[k] == 'e' || t[k] == 'E') {
        Some(choose|k: int| 0 <= k < t.len() && (t[k] == 'e' || t[k] == 'E')
            && forall|j: int| 0 <= j < k ==> !(t[j] == 'e' || t[j] == 'E'))
    } else {
        None
    }
}

/// The decimal scale written before a unit, as text.
pub enum ScaleText {
    /// No scale written (no space in the unit): the scale is 1.
    Default,
    /// A scale "<mantissa>e<power>" (or with 'E') before the first space.
    Given(Seq<char>, Seq<char>),
    /// Text before the first space without 'e' or 'E': no scale is kept.
    Absent,
}

/// How the text of a unit splits into its scale and its unit part.
pub open spec fn scale_text(s: Seq<char>) -> ScaleText {
    match space_pos(s) {
        None => ScaleText::Default,
        Some(p) => {
            let pre = s.subrange(0, p);
            match marker_pos(pre) {
                Some(q) => ScaleText::Given(pre.subrange(0, q), pre.subrange(q + 1, pre.len() as int)),
                None => ScaleText::Absent,
            }
        },
    }
}

/// The unit part: what follows the first space, or everything.
pub open spec fn unit_part(s: Seq<char>) -> Seq<char> {
    match space_pos(s) {
        None => s,
        Some(p) => s.subrange(p + 1, s.len() as int),
    }
}

/// The text of a unit can be read: its power of ten, if given, fits a machine
/// integer, and every term of its unit part can be read.
pub open spec fn unit_readable(s: Seq<char>) -> bool {
    &&& terms_readable(unit_part(s))
    &&& (scale_text(s) matches ScaleText::Given(_, p) ==> isize_text(p) is Some)
}

/// Position of the first space in `c[from..to]`, if any.
fn find_space(c: &Vec<char>, from: usize, to: usize) -> (r: Option<usize>)
    requires
        from <= to <= c@.len(),
    ensures
        space_pos(c@.subrange(from as int, to as int)) == (match r { Some(k) => Some(k - from), None => None::<int> }),
        r matches Some(k) ==> from <= k < to,
{
    let ghost t = c@.subrange(from as int, to as int);
    let mut k = from;
    while k < to
        invariant
            from <= k <= to <= c@.len(),
            t == c@.subrange(from as int, to as int),
            forall|j: int| 0 <= j < k - from ==> t[j] != ' ',
        decreases to - k,
    {
        if c[k] == ' ' {
            proof {
                reveal(space_pos);
                let p = (k - from) as int;
                assert(t[p] == ' ');
                assert(exists|q: int| 0 <= q < t.len() && t[q] == ' ' && forall|j: int| 0 <= j < q ==> t[j] != ' ');
                let q = choose|q: int| 0 <= q < t.len() && t[q] == ' ' && forall|j: int| 0 <= j < q ==> t[j] != ' ';
                if q < p {
                    assert(t[q] != ' ');
                } else if q > p {
                    assert(t[p] != ' ');
                }
            }
            return Some(k);
        }
        k = k + 1;
    }
    proof {
        reveal(space_pos);
        assert forall|j: int| 0 <= j < t.len() implies t[j] != ' ' by {}
    }
    None
}

/// Position of the first 'e' or 'E' in `c[from..to]`, if any.
fn find_marker(c: &Vec<char>, from: usize, to: usize) -> (r: Option<usize>)
    requires
        from <= to <= c@.len(),
    ensures
        marker_pos(c@.subrange(from as int, to as int)) == (match r { Some(k) => Some(k - from), None => None::<int> }),
        r matches Some(k) ==> from <= k < to,
{
    let ghost t = c@.subrange(from as int, to as int);
    let mut k = from;
    while k < to
        invariant
            from <= k <= to <= c@.len(),
            t == c@.subrange(from as int, to as int),
            forall|j: int| 0 <= j < k - from ==> !(t[j] == 'e' || t[j] == 'E'),
        decreases to - k,
    {
        if c[k] == 'e' || c[k] == 'E' {
            proof {
                reveal(marker_pos);
                let p = (k - from) as int;
                assert(t[p] == 'e' || t[p] == 'E');
                assert(exists|q: int| 0 <= q < t.len() && (t[q] == 'e' || t[q] == 'E')
                    && forall|j: int| 0 <= j < q ==> !(t[j] == 'e' || t[j] == 'E'));
                let q = choose|q: int| 0 <= q < t.len() && (t[q] == 'e' || t[q] == 'E')
                    && forall|j: int| 0 <= j < q ==> !(t[j] == 'e' || t[j] == 'E');
                if q < p {
                    assert(!(t[q] == 'e' || t[q] == 'E'));
                } else if q > p {
                    assert(!(t[p] == 'e' || t[p] == 'E'));
                }
            }
            return Some(k);
        }
        k = k + 1;
    }
    proof {
        reveal(marker_pos);
        assert forall|j: int| 0 <= j < t.len() implies !(t[j] == 'e' || t[j] == 'E') by {}
    }
    None
}

/// The text of a unit, split into its scale (mantissa text and power) and
/// its unit part.
pub struct SplitUnit {
    /// `None` when no scale is kept; `Some(None)` when none is written
    /// (scale 1); `Some(Some((mantissa, power)))` when one is written.
    pub scale: Option<Option<(String, isize)>>,
    pub unit_part: String,
}

/// Split the text of a unit into its scale and its unit part. `None` when the
/// power of ten written in the scale does not fit a machine integer.
pub fn split_unit(s: &str) -> (r: Option<SplitUnit>)
    ensures
        match r {
            None => scale_text(s@) matches ScaleText::Given(_, p) && isize_text(p) is None,
            Some(u) => {
                &&& u.unit_part@ == unit_part(s@)
                &&& match scale_text(s@) {
                    ScaleText::Default => u.scale == Some(None::<(String, isize)>),
                    ScaleText::Absent => u.scale is None,
                    ScaleText::Given(m, p) => u.scale matches Some(Some(mp))
                        && mp.0@ == m && isize_text(p) == Some(mp.1 as int),
                }
            },
        },
{
    let c = chars_of(s);
    let n = c.len();
    match find_space(&c, 0, n) {
        None => {
            assert(c@.subrange(0, n as int) =~= s@);
            Some(SplitUnit { scale: Some(None), unit_part: s.to_owned() })
        },
        Some(p) => {
            assert(c@.subrange(0, n as int) =~= s@);
            let ghost pre = s@.subrange(0, p as int);
            assert(c@.subrange(0, p as int) =~= pre);
            let rest = s.substring_char(p + 1, n).to_owned();
            match find_marker(&c, 0, p) {
                None => Some(SplitUnit { scale: None, unit_part: rest }),
                Some(q) => {
                    let mantissa = s.substring_char(0, q).to_owned();
                    assert(mantissa@ =~= pre.subrange(0, q as int));
                    assert(c@.subrange(q + 1, p as int) =~= pre.subrange(q + 1, pre.len() as int));
                    match parse_isize(&c, q + 1, p) {
                        Some(power) => Some(SplitUnit { scale: Some(Some((mantissa, power))), unit_part: rest }),
                        None => None,
                    }
                },
            }
        },
    }
}

} // verus!
