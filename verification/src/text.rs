//! String building blocks shared by the rest of the library: comparison,
//! search, splitting, decimal rendering and byte-exact measuring.

use vstd::prelude::*;
use vstd::string::*;
use vstd::utf8::*;

use crate::seqs::{group_views, opt_view, views};

verus! {

broadcast use group_views;

/// `String::push` appends one character at the end and changes nothing else.
pub assume_specification[ String::push ](s: &mut String, c: char)
    ensures
        final(s)@ == old(s)@.push(c),
;

/// The characters of `s`, in order.
pub fn chars_of(s: &str) -> (v: Vec<char>)
    ensures
        v@ == s@,
{
    let mut v: Vec<char> = Vec::new();
    for c in it: s.chars()
        invariant
            v@ == s@.take(it.index()),
            it.seq() == s@,
    {
        v.push(c);
    }
    v
}

/// A string made of `v[from..to]`.
pub fn string_of(v: &Vec<char>, from: usize, to: usize) -> (s: String)
    requires
        from <= to <= v@.len(),
    ensures
        s@ == v@.subrange(from as int, to as int),
{
    let mut s = String::new();
    let mut i: usize = from;
    while i < to
        invariant
            from <= i <= to <= v@.len(),
            s@ == v@.subrange(from as int, i as int),
        decreases to - i,
    {
        s.push(v[i]);
        i = i + 1;
        assert(s@ =~= v@.subrange(from as int, i as int));
    }
    s
}

/// A fresh copy of `s`.
pub fn copy_of(s: &str) -> (r: String)
    ensures
        r@ == s@,
{
    s.to_owned()
}

/// `a` followed by `b`.
pub fn join2(a: &str, b: &str) -> (r: String)
    ensures
        r@ == a@ + b@,
{
    let mut r = a.to_owned();
    r.append(b);
    r
}

/// `a`, `b` and `c`, one after another.
pub fn join3(a: &str, b: &str, c: &str) -> (r: String)
    ensures
        r@ == a@ + b@ + c@,
{
    let mut r = a.to_owned();
    r.append(b);
    r.append(c);
    r
}

/// Two strings are the same when their encodings are.
proof fn lemma_same_bytes(a: Seq<char>, b: Seq<char>)
    ensures
        encode_utf8(a) == encode_utf8(b) <==> a == b,
{
    encode_utf8_decode_utf8(a);
    encode_utf8_decode_utf8(b);
}

/// Whether two strings hold the same text.
pub fn str_eq(a: &str, b: &str) -> (r: bool)
    ensures
        r == (a@ == b@),
{
    let x = a.as_bytes();
    let y = b.as_bytes();
    proof {
        lemma_same_bytes(a@, b@);
    }
    if x.len() != y.len() {
        return false;
    }
    let mut i: usize = 0;
    while i < x.len()
        invariant
            x@ == encode_utf8(a@),
            y@ == encode_utf8(b@),
            x@.len() == y@.len(),
            i <= x@.len(),
            forall|j: int| 0 <= j < i ==> x@[j] == y@[j],
            encode_utf8(a@) == encode_utf8(b@) <==> a@ == b@,
        decreases x@.len() - i,
    {
        if x[i] != y[i] {
            return false;
        }
        i = i + 1;
    }
    assert(x@ =~= y@);
    true
}

/// Whether `s` begins with `p`.
pub open spec fn begins_with(s: Seq<char>, p: Seq<char>) -> bool {
    p.len() <= s.len() && s.take(p.len() as int) == p
}

/// Whether `s` ends with `p`.
pub open spec fn finishes_with(s: Seq<char>, p: Seq<char>) -> bool {
    p.len() <= s.len() && s.skip(s.len() - p.len()) == p
}

/// Whether `p` stands somewhere inside `s`.
pub open spec fn holds(s: Seq<char>, p: Seq<char>) -> bool {
    exists|i: int| #[trigger] holds_at(s, p, i)
}

/// Whether `p` stands in `s` at position `i`.
pub open spec fn holds_at(s: Seq<char>, p: Seq<char>, i: int) -> bool {
    0 <= i && i + p.len() <= s.len() && s.subrange(i, i + p.len()) == p
}

fn matches_at(s: &Vec<char>, p: &Vec<char>, at: usize) -> (r: bool)
    requires
        at + p@.len() <= s@.len(),
    ensures
        r == holds_at(s@, p@, at as int),
{
    let n: usize = s.len();
    let mut k: usize = 0;
    while k < p.len()
        invariant
            n == s@.len(),
            at + p@.len() <= n,
            k <= p@.len(),
            forall|j: int| 0 <= j < k ==> s@[at + j] == p@[j],
        decreases p@.len() - k,
    {
        if s[at + k] != p[k] {
            assert(s@.subrange(at as int, at + p@.len())[k as int] != p@[k as int]);
            return false;
        }
        k = k + 1;
    }
    assert(s@.subrange(at as int, at + p@.len()) =~= p@);
    true
}

/// Whether `s` begins with `p`.
pub fn starts_with(s: &str, p: &str) -> (r: bool)
    ensures
        r == begins_with(s@, p@),
{
    let v = chars_of(s);
    let w = chars_of(p);
    if w.len() > v.len() {
        return false;
    }
    assert(v@.subrange(0, w@.len() as int) =~= v@.take(w@.len() as int));
    matches_at(&v, &w, 0)
}

/// Whether `s` ends with `p`.
pub fn ends_with(s: &str, p: &str) -> (r: bool)
    ensures
        r == finishes_with(s@, p@),
{
    let v = chars_of(s);
    let w = chars_of(p);
    if w.len() > v.len() {
        return false;
    }
    let at: usize = v.len() - w.len();
    assert(v@.subrange(at as int, at + w@.len()) =~= v@.skip(at as int));
    matches_at(&v, &w, at)
}

/// Whether `p` stands somewhere inside `s`.
pub fn contains(s: &str, p: &str) -> (r: bool)
    ensures
        r == holds(s@, p@),
{
    let v = chars_of(s);
    let w = chars_of(p);
    if w.len() > v.len() {
        return false;
    }
    let last: usize = v.len() - w.len();
    let mut i: usize = 0;
    while i <= last
        invariant
            v@ == s@,
            w@ == p@,
            last == v@.len() - w@.len(),
            i <= last + 1,
            forall|j: int| 0 <= j < i ==> !holds_at(s@, p@, j),
        decreases last + 1 - i,
    {
        if matches_at(&v, &w, i) {
            return true;
        }
        if i == last {
            assert forall|j: int| !holds_at(s@, p@, j) by {}
            return false;
        }
        i = i + 1;
    }
    false
}

/// `s` without the leading and trailing characters for which `gone` holds.
pub open spec fn trim_by(s: Seq<char>, gone: spec_fn(char) -> bool) -> Seq<char> {
    trim_end_by(trim_start_by(s, gone), gone)
}

/// `s` without the leading characters for which `gone` holds.
pub open spec fn trim_start_by(s: Seq<char>, gone: spec_fn(char) -> bool) -> Seq<char>
    decreases s.len(),
{
    if s.len() > 0 && gone(s[0]) {
        trim_start_by(s.drop_first(), gone)
    } else {
        s
    }
}

/// `s` without the trailing characters for which `gone` holds.
pub open spec fn trim_end_by(s: Seq<char>, gone: spec_fn(char) -> bool) -> Seq<char>
    decreases s.len(),
{
    if s.len() > 0 && gone(s.last()) {
        trim_end_by(s.drop_last(), gone)
    } else {
        s
    }
}

/// The characters with the Unicode property `White_Space`.
pub open spec fn is_white_space(c: char) -> bool {
    let u = c as u32;
    ||| 0x9 <= u <= 0xd
    ||| u == 0x20
    ||| u == 0x85
    ||| u == 0xa0
    ||| u == 0x1680
    ||| 0x2000 <= u <= 0x200a
    ||| u == 0x2028
    ||| u == 0x2029
    ||| u == 0x202f
    ||| u == 0x205f
    ||| u == 0x3000
}

/// `s` without leading and trailing white space.
pub open spec fn trimmed(s: Seq<char>) -> Seq<char> {
    trim_by(s, |c: char| is_white_space(c))
}

/// Whether `c` is white space.
pub fn char_is_white_space(c: char) -> (r: bool)
    ensures
        r == is_white_space(c),
{
    let u = c as u32;
    (0x9 <= u && u <= 0xd) || u == 0x20 || u == 0x85 || u == 0xa0 || u == 0x1680 || (0x2000 <= u
        && u <= 0x200a) || u == 0x2028 || u == 0x2029 || u == 0x202f || u == 0x205f || u == 0x3000
}

/// `s` without leading and trailing white space.
pub fn trim(s: &str) -> (r: String)
    ensures
        r@ == trimmed(s@),
{
    let v = chars_of(s);
    let ghost gone = |c: char| is_white_space(c);
    let mut from: usize = 0;
    assert(v@.skip(0) =~= v@);
    while from < v.len() && char_is_white_space(v[from])
        invariant
            from <= v@.len(),
            gone == (|c: char| is_white_space(c)),
            trim_start_by(v@, gone) == trim_start_by(v@.skip(from as int), gone),
        decreases v@.len() - from,
    {
        assert(v@.skip(from as int).drop_first() =~= v@.skip(from + 1));
        from = from + 1;
    }
    let ghost kept = v@.skip(from as int);
    assert(trim_start_by(v@, gone) == kept);
    let mut to: usize = v.len();
    assert(kept.take(to - from) =~= kept);
    while to > from && char_is_white_space(v[to - 1])
        invariant
            from <= to <= v@.len(),
            kept == v@.skip(from as int),
            gone == (|c: char| is_white_space(c)),
            trim_end_by(kept, gone) == trim_end_by(kept.take(to - from), gone),
        decreases to,
    {
        assert(kept.take(to - from).drop_last() =~= kept.take(to - from - 1));
        to = to - 1;
    }
    assert(v@.subrange(from as int, to as int) =~= kept.take(to - from));
    string_of(&v, from, to)
}

/// `s` without its trailing `c` characters.
pub fn trim_end_char(s: &str, c: char) -> (r: String)
    ensures
        r@ == trim_end_by(s@, |x: char| x == c),
{
    let v = chars_of(s);
    let ghost gone = |x: char| x == c;
    let mut to: usize = v.len();
    assert(v@.take(to as int) =~= v@);
    while to > 0 && v[to - 1] == c
        invariant
            to <= v@.len(),
            gone == (|x: char| x == c),
            trim_end_by(v@, gone) == trim_end_by(v@.take(to as int), gone),
        decreases to,
    {
        assert(v@.take(to as int).drop_last() =~= v@.take(to - 1));
        to = to - 1;
    }
    assert(v@.subrange(0, to as int) =~= v@.take(to as int));
    string_of(&v, 0, to)
}

/// The lower-case form of an ASCII letter; any other character unchanged.
pub open spec fn ascii_lower(c: char) -> char {
    if 'A' <= c <= 'Z' {
        (c as u32 + 32) as char
    } else {
        c
    }
}

/// `s` with its ASCII letters in lower case.
pub open spec fn lowered(s: Seq<char>) -> Seq<char> {
    Seq::new(s.len(), |i: int| ascii_lower(s[i]))
}

/// The lower-case form of an ASCII letter; any other character unchanged.
pub fn to_ascii_lower(c: char) -> (r: char)
    ensures
        r == ascii_lower(c),
{
    if 'A' <= c && c <= 'Z' {
        (c as u8 + 32) as char
    } else {
        c
    }
}

/// `s` with its ASCII letters in lower case.
pub fn lower(s: &str) -> (r: String)
    ensures
        r@ == lowered(s@),
{
    let mut r = String::new();
    for c in it: s.chars()
        invariant
            it.seq() == s@,
            r@ == lowered(s@.take(it.index())),
    {
        r.push(to_ascii_lower(c));
        assert(r@ =~= lowered(s@.take(it.index() + 1)));
    }
    assert(s@.take(s@.len() as int) =~= s@);
    r
}

/// Whether two strings are equal but for the case of ASCII letters.
pub fn eq_ignore_case(a: &str, b: &str) -> (r: bool)
    ensures
        r == (lowered(a@) == lowered(b@)),
{
    str_eq(&lower(a), &lower(b))
}

/// The pieces of `s` between the `sep` characters; `n` separators make
/// `n + 1` pieces.
pub open spec fn split_by(s: Seq<char>, sep: char) -> Seq<Seq<char>>
    decreases s.len(),
{
    if s.len() == 0 {
        seq![seq![]]
    } else {
        let rest = split_by(s.drop_last(), sep);
        if s.last() == sep {
            rest.push(seq![])
        } else {
            rest.drop_last().push(rest.last().push(s.last()))
        }
    }
}

pub proof fn lemma_split_nonempty(s: Seq<char>, sep: char)
    ensures
        split_by(s, sep).len() > 0,
    decreases s.len(),
{
    if s.len() > 0 {
        lemma_split_nonempty(s.drop_last(), sep);
    }
}

/// The pieces of `s` between the `sep` characters.
pub fn split(s: &str, sep: char) -> (r: Vec<String>)
    ensures
        views(r@) == split_by(s@, sep),
{
    let mut done: Vec<String> = Vec::new();
    let mut cur = String::new();
    assert(views(done@).push(cur@) =~= split_by(Seq::empty(), sep));
    assert(s@.take(0) =~= Seq::empty());
    for c in it: s.chars()
        invariant
            it.seq() == s@,
            views(done@).push(cur@) == split_by(s@.take(it.index()), sep),
    {
        let ghost i = it.index();
        assert(s@.take(i + 1).drop_last() =~= s@.take(i));
        assert(split_by(s@.take(i), sep).drop_last() =~= views(done@));
        if c == sep {
            done.push(cur);
            cur = String::new();
            assert(cur@ =~= seq![]);
        } else {
            cur.push(c);
        }
    }
    assert(s@.take(s@.len() as int) =~= s@);
    done.push(cur);
    done
}

/// The decimal digit `d`.
pub open spec fn digit(d: nat) -> char
    recommends
        d < 10,
{
    (0x30 + d) as char
}

/// The decimal notation of `n`, without leading zeros.
pub open spec fn decimal(n: nat) -> Seq<char>
    decreases n,
{
    if n < 10 {
        seq![digit(n)]
    } else {
        decimal(n / 10).push(digit(n % 10))
    }
}

/// The decimal notation of `n`, with a minus sign where it is negative.
pub open spec fn decimal_int(n: int) -> Seq<char> {
    if n < 0 {
        seq!['-'] + decimal((-n) as nat)
    } else {
        decimal(n as nat)
    }
}

/// The decimal notation of `n`.
pub fn decimal_u64(n: u64) -> (r: String)
    ensures
        r@ == decimal(n as nat),
    decreases n,
{
    let d: u8 = (n % 10) as u8;
    let c: char = (0x30 + d) as char;
    if n < 10 {
        let mut r = String::new();
        r.push(c);
        assert(r@ =~= decimal(n as nat));
        r
    } else {
        let mut r = decimal_u64(n / 10);
        r.push(c);
        r
    }
}

/// The decimal notation of `n`.
pub fn decimal_i64(n: i64) -> (r: String)
    ensures
        r@ == decimal_int(n as int),
{
    if n < 0 {
        let m: u64 = (-(n as i128)) as u64;
        let mut r = String::new();
        r.push('-');
        r.append(&decimal_u64(m));
        assert(r@ =~= decimal_int(n as int));
        r
    } else {
        decimal_u64(n as u64)
    }
}

/// A text that may be missing; a missing one is empty.
pub open spec fn text_or_empty(v: Option<Seq<char>>) -> Seq<char> {
    match v {
        Some(s) => s,
        None => Seq::empty(),
    }
}

/// A text that may be missing; a missing one is empty.
pub fn some_text(t: Option<&str>) -> (r: String)
    ensures
        r@ == text_or_empty(opt_view(t)),
{
    match t {
        Some(s) => copy_of(s),
        None => {
            let r = String::new();
            assert(r@ =~= Seq::empty());
            r
        },
    }
}

/// The number of bytes that `c` takes in UTF-8.
pub open spec fn char_bytes(c: char) -> nat {
    encode_scalar(c as u32).len()
}

/// The number of bytes that `s` takes in UTF-8.
pub open spec fn utf8_len(s: Seq<char>) -> nat {
    encode_utf8(s).len()
}

pub proof fn lemma_utf8_concat(a: Seq<char>, b: Seq<char>)
    ensures
        utf8_len(a + b) == utf8_len(a) + utf8_len(b),
    decreases a.len(),
{
    if a.len() == 0 {
        assert(a + b =~= b);
    } else {
        assert((a + b).drop_first() =~= a.drop_first() + b);
        lemma_utf8_concat(a.drop_first(), b);
    }
}

pub proof fn lemma_utf8_one(c: char)
    ensures
        utf8_len(seq![c]) == char_bytes(c),
        1 <= char_bytes(c) <= 4,
{
    assert(seq![c].drop_first() =~= Seq::empty());
    reveal_with_fuel(encode_utf8, 2);
}

pub proof fn lemma_utf8_push(s: Seq<char>, c: char)
    ensures
        utf8_len(s.push(c)) == utf8_len(s) + char_bytes(c),
{
    assert(s.push(c) =~= s + seq![c]);
    lemma_utf8_concat(s, seq![c]);
    lemma_utf8_one(c);
}

/// The number of bytes that `c` takes in UTF-8.
pub fn char_byte_len(c: char) -> (n: usize)
    ensures
        n == char_bytes(c),
        1 <= n <= 4,
{
    let u = c as u32;
    if u < 0x80 {
        1
    } else if u < 0x800 {
        2
    } else if u < 0x10000 {
        3
    } else {
        4
    }
}

/// The length of `s` in bytes.
pub fn byte_len(s: &str) -> (n: usize)
    ensures
        n == utf8_len(s@),
{
    s.as_bytes().len()
}

/// How many leading characters of `s` fit into `budget` bytes.
pub open spec fn fitting_head(s: Seq<char>, budget: int) -> nat
    decreases s.len(),
{
    if s.len() == 0 || char_bytes(s[0]) > budget {
        0
    } else {
        1 + fitting_head(s.drop_first(), budget - char_bytes(s[0]))
    }
}

/// How many trailing characters of `s` fit into `budget` bytes.
pub open spec fn fitting_tail(s: Seq<char>, budget: int) -> nat
    decreases s.len(),
{
    if s.len() == 0 || char_bytes(s.last()) > budget {
        0
    } else {
        1 + fitting_tail(s.drop_last(), budget - char_bytes(s.last()))
    }
}

/// What `fitting_head` means: the prefix fits, and one more character would
/// not.
pub proof fn lemma_fitting_head(s: Seq<char>, budget: int)
    requires
        budget >= 0,
    ensures
        fitting_head(s, budget) <= s.len(),
        utf8_len(s.take(fitting_head(s, budget) as int)) <= budget,
        fitting_head(s, budget) < s.len() ==> utf8_len(
            s.take(fitting_head(s, budget) as int + 1),
        ) > budget,
    decreases s.len(),
{
    let k = fitting_head(s, budget);
    if s.len() == 0 {
        assert(s.take(0) =~= Seq::empty());
    } else if char_bytes(s[0]) > budget {
        assert(s.take(0) =~= Seq::empty());
        assert(s.take(1) =~= seq![s[0]]);
        lemma_utf8_one(s[0]);
    } else {
        let rest = s.drop_first();
        lemma_fitting_head(rest, budget - char_bytes(s[0]));
        assert(s.take(k as int).drop_first() =~= rest.take(k - 1));
        if k < s.len() {
            assert(s.take(k as int + 1).drop_first() =~= rest.take(k as int));
        }
    }
}

/// What `fitting_tail` means: the suffix fits, and one more character would
/// not.
pub proof fn lemma_fitting_tail(s: Seq<char>, budget: int)
    requires
        budget >= 0,
    ensures
        fitting_tail(s, budget) <= s.len(),
        utf8_len(s.skip(s.len() - fitting_tail(s, budget))) <= budget,
        fitting_tail(s, budget) < s.len() ==> utf8_len(
            s.skip(s.len() - fitting_tail(s, budget) - 1),
        ) > budget,
    decreases s.len(),
{
    let k = fitting_tail(s, budget);
    let n = s.len() as int;
    if n == 0 {
        assert(s.skip(0) =~= Seq::empty());
    } else if char_bytes(s.last()) > budget {
        assert(s.skip(n) =~= Seq::empty());
        assert(s.skip(n - 1) =~= seq![s.last()]);
        lemma_utf8_one(s.last());
    } else {
        let rest = s.drop_last();
        lemma_fitting_tail(rest, budget - char_bytes(s.last()));
        assert(s.skip(n - k) =~= rest.skip(n - k).push(s.last()));
        lemma_utf8_push(rest.skip(n - k), s.last());
        if k < n {
            assert(s.skip(n - k - 1) =~= rest.skip(n - k - 1).push(s.last()));
            lemma_utf8_push(rest.skip(n - k - 1), s.last());
        }
    }
}

/// How many leading characters of `v` fit into `budget` bytes.
pub fn head_fit(v: &Vec<char>, budget: usize) -> (k: usize)
    ensures
        k == fitting_head(v@, budget as int),
        k <= v@.len(),
{
    let mut k: usize = 0;
    let mut left: usize = budget;
    assert(v@.skip(0) =~= v@);
    while k < v.len() && char_byte_len(v[k]) <= left
        invariant
            k <= v@.len(),
            fitting_head(v@, budget as int) == k + fitting_head(v@.skip(k as int), left as int),
        decreases v@.len() - k,
    {
        assert(v@.skip(k as int).drop_first() =~= v@.skip(k + 1));
        left = left - char_byte_len(v[k]);
        k = k + 1;
    }
    k
}

/// How many trailing characters of `v` fit into `budget` bytes.
pub fn tail_fit(v: &Vec<char>, budget: usize) -> (k: usize)
    ensures
        k == fitting_tail(v@, budget as int),
        k <= v@.len(),
{
    let n: usize = v.len();
    let mut k: usize = 0;
    let mut left: usize = budget;
    assert(v@.take(n as int) =~= v@);
    while k < n && char_byte_len(v[n - k - 1]) <= left
        invariant
            n == v@.len(),
            k <= n,
            fitting_tail(v@, budget as int) == k + fitting_tail(v@.take(n - k), left as int),
        decreases n - k,
    {
        assert(v@.take(n - k).drop_last() =~= v@.take(n - k - 1));
        left = left - char_byte_len(v[n - k - 1]);
        k = k + 1;
    }
    k
}

// ---- what these do, in terms of the text itself ----

proof fn lemma_trim_start(s: Seq<char>, gone: spec_fn(char) -> bool) -> (a: int)
    ensures
        0 <= a <= s.len(),
        trim_start_by(s, gone) == s.skip(a),
        forall|i: int| 0 <= i < a ==> gone(#[trigger] s[i]),
        a < s.len() ==> !gone(s[a]),
    decreases s.len(),
{
    if s.len() > 0 && gone(s[0]) {
        let b = lemma_trim_start(s.drop_first(), gone);
        assert(s.drop_first().skip(b) =~= s.skip(b + 1));
        assert forall|i: int| 0 <= i < b + 1 implies gone(#[trigger] s[i]) by {
            if i > 0 {
                assert(s.drop_first()[i - 1] == s[i]);
            }
        }
        b + 1
    } else {
        assert(s.skip(0) =~= s);
        0
    }
}

proof fn lemma_trim_end(s: Seq<char>, gone: spec_fn(char) -> bool) -> (b: int)
    ensures
        0 <= b <= s.len(),
        trim_end_by(s, gone) == s.take(b),
        forall|i: int| b <= i < s.len() ==> gone(#[trigger] s[i]),
        b > 0 ==> !gone(s[b - 1]),
    decreases s.len(),
{
    if s.len() > 0 && gone(s.last()) {
        let b = lemma_trim_end(s.drop_last(), gone);
        assert(s.drop_last().take(b) =~= s.take(b));
        assert forall|i: int| b <= i < s.len() implies gone(#[trigger] s[i]) by {
            if i < s.len() - 1 {
                assert(s.drop_last()[i] == s[i]);
            }
        }
        b
    } else {
        assert(s.take(s.len() as int) =~= s);
        s.len() as int
    }
}

/// Whether `s[a..b]` is what is left of `s` when white space around it is
/// cut off: it neither begins nor ends with white space, and all that is
/// cut is white space.
pub open spec fn is_core(s: Seq<char>, a: int, b: int) -> bool {
    &&& 0 <= a <= b <= s.len()
    &&& forall|i: int| 0 <= i < a ==> is_white_space(#[trigger] s[i])
    &&& forall|i: int| b <= i < s.len() ==> is_white_space(#[trigger] s[i])
    &&& a < b ==> !is_white_space(s[a]) && !is_white_space(s[b - 1])
}

/// Trimming cuts the white space at both ends and nothing else.
pub proof fn law_trimming_cuts_white_space(s: Seq<char>)
    ensures
        exists|a: int, b: int| #[trigger] is_core(s, a, b) && trimmed(s) == s.subrange(a, b),
        is_white_space(' ') && is_white_space('\t') && is_white_space('\n') && is_white_space(
            '\r',
        ),
        forall|c: char| '!' <= c <= '~' ==> !#[trigger] is_white_space(c),
{
    let gone = |c: char| is_white_space(c);
    let a = lemma_trim_start(s, gone);
    let rest = s.skip(a);
    let n = lemma_trim_end(rest, gone);
    let b = a + n;
    assert(rest.take(n) =~= s.subrange(a, b));
    assert forall|i: int| 0 <= i < a implies is_white_space(#[trigger] s[i]) by {
        assert(gone(s[i]));
    }
    assert forall|i: int| b <= i < s.len() implies is_white_space(#[trigger] s[i]) by {
        assert(gone(rest[i - a]));
    }
    if a < b {
        assert(!gone(s[a]));
        assert(!gone(rest[n - 1]));
    }
    assert(is_core(s, a, b));
}

/// A character is cut from the end as often as it stands there, and nothing
/// else is cut.
pub proof fn law_trailing_characters_are_cut(s: Seq<char>, c: char)
    ensures
        ({
            let r = trim_end_by(s, |x: char| x == c);
            &&& r.len() <= s.len()
            &&& r == s.take(r.len() as int)
            &&& r.len() > 0 ==> r.last() != c
            &&& forall|i: int| r.len() <= i < s.len() ==> #[trigger] s[i] == c
        }),
{
    let gone = |x: char| x == c;
    let b = lemma_trim_end(s, gone);
    assert(s.take(b).len() == b);
    assert forall|i: int| b <= i < s.len() implies #[trigger] s[i] == c by {
        assert(gone(s[i]));
    }
    if b > 0 {
        assert(!gone(s[b - 1]));
    }
}

/// Lower case changes the letters from A to Z and nothing else, each into
/// its counterpart; twice is as good as once.
pub proof fn law_lower_case_changes_letters_only(s: Seq<char>)
    ensures
        lowered(s).len() == s.len(),
        forall|i: int|
            0 <= i < s.len() ==> {
                &&& !('A' <= #[trigger] lowered(s)[i] <= 'Z')
                &&& !('A' <= s[i] <= 'Z') ==> lowered(s)[i] == s[i]
                &&& 'A' <= s[i] <= 'Z' ==> lowered(s)[i] as u32 == s[i] as u32 + 32
            },
        lowered(lowered(s)) == lowered(s),
{
    assert(lowered(lowered(s)) =~= lowered(s));
}

/// The pieces put together again, with the separator between them.
pub open spec fn joined(pieces: Seq<Seq<char>>, sep: char) -> Seq<char>
    decreases pieces.len(),
{
    if pieces.len() == 0 {
        Seq::empty()
    } else if pieces.len() == 1 {
        pieces[0]
    } else {
        joined(pieces.drop_last(), sep).push(sep) + pieces.last()
    }
}

/// Splitting loses nothing: the pieces, put together with the separator
/// between them, are the text, and no piece holds the separator.
pub proof fn law_pieces_make_up_the_text(s: Seq<char>, sep: char)
    ensures
        split_by(s, sep).len() > 0,
        joined(split_by(s, sep), sep) == s,
        forall|i: int|
            0 <= i < split_by(s, sep).len() ==> !(#[trigger] split_by(s, sep)[i]).contains(sep),
    decreases s.len(),
{
    let all = split_by(s, sep);
    if s.len() == 0 {
        assert(joined(all, sep) =~= s);
        assert(!all[0].contains(sep));
    } else {
        let head = s.drop_last();
        let rest = split_by(head, sep);
        law_pieces_make_up_the_text(head, sep);
        let c = s.last();
        if c == sep {
            assert(all.drop_last() =~= rest);
            assert(joined(all, sep) =~= head.push(sep));
            assert(head.push(sep) =~= s);
            assert forall|i: int| 0 <= i < all.len() implies !(#[trigger] all[i]).contains(
                sep,
            ) by {
                if i < rest.len() {
                    assert(all[i] == rest[i]);
                }
            }
        } else {
            let last = rest.last();
            assert(all.drop_last() =~= rest.drop_last());
            assert(all.last() == last.push(c));
            if rest.len() == 1 {
                assert(joined(rest, sep) == rest[0]);
                assert(joined(all, sep) == all[0]);
                assert(all[0] == head.push(c));
            } else {
                assert(joined(all, sep) =~= joined(rest, sep).push(c));
            }
            assert(head.push(c) =~= s);
            assert forall|i: int| 0 <= i < all.len() implies !(#[trigger] all[i]).contains(
                sep,
            ) by {
                if i < rest.len() - 1 {
                    assert(all[i] == rest[i]);
                } else {
                    assert(!rest[rest.len() - 1].contains(sep));
                    assert(all[i] == last.push(c));
                    if all[i].contains(sep) {
                        let k = choose|k: int| 0 <= k < all[i].len() && all[i][k] == sep;
                        assert(last[k] == sep);
                        assert(last.contains(sep));
                    }
                }
            }
        }
    }
}

/// The number that a row of decimal digits stands for.
pub open spec fn number_of(digits: Seq<char>) -> int
    decreases digits.len(),
{
    if digits.len() == 0 {
        0
    } else {
        number_of(digits.drop_last()) * 10 + (digits.last() as int - '0' as int)
    }
}

/// A number is written with the digits that stand for it, and without a
/// zero in front.
pub proof fn law_decimal_stands_for_the_number(n: nat)
    ensures
        number_of(decimal(n)) == n,
        decimal(n).len() > 0,
        forall|i: int| 0 <= i < decimal(n).len() ==> '0' <= #[trigger] decimal(n)[i] <= '9',
        decimal(n)[0] == '0' ==> n == 0,
    decreases n,
{
    let d = decimal(n);
    if n < 10 {
        assert(d.drop_last() =~= Seq::empty());
        assert(number_of(d.drop_last()) == 0);
    } else {
        law_decimal_stands_for_the_number(n / 10);
        assert(d.drop_last() =~= decimal(n / 10));
        assert(d.last() == digit(n % 10));
        assert(d[0] == decimal(n / 10)[0]);
    }
}

/// A text holds another where it stands between two others, begins with it
/// where it comes first, and ends with it where it comes last; and in no
/// other case.
pub proof fn law_parts_are_found(a: Seq<char>, p: Seq<char>, b: Seq<char>, s: Seq<char>)
    ensures
        holds(a + p + b, p),
        begins_with(p + b, p),
        finishes_with(a + p, p),
        holds(s, p) ==> exists|i: int|
            #![trigger s.take(i)]
            0 <= i && i + p.len() <= s.len() && s == s.take(i) + p + s.skip(i + p.len()),
        begins_with(s, p) ==> p.len() <= s.len() && s == p + s.skip(p.len() as int),
        finishes_with(s, p) ==> p.len() <= s.len() && s == s.take(s.len() - p.len()) + p,
{
    let t = a + p + b;
    let k = a.len() as int;
    assert(t.subrange(k, k + p.len()) =~= p);
    assert(holds_at(t, p, k));
    assert((p + b).take(p.len() as int) =~= p);
    assert((a + p).skip((a + p).len() - p.len()) =~= p);
    if holds(s, p) {
        let i = choose|i: int| #[trigger] holds_at(s, p, i);
        assert(s =~= s.take(i) + s.subrange(i, i + p.len()) + s.skip(i + p.len()));
    }
    if begins_with(s, p) {
        assert(s =~= s.take(p.len() as int) + s.skip(p.len() as int));
    }
    if finishes_with(s, p) {
        assert(s =~= s.take(s.len() - p.len()) + s.skip(s.len() - p.len()));
    }
}

/// A negative number is written with a minus sign in front of its digits.
pub proof fn law_negative_numbers_carry_a_sign(n: nat)
    ensures
        decimal_int(n as int) == decimal(n),
        n > 0 ==> decimal_int(-n) == seq!['-'] + decimal(n),
{
}

} // verus!
