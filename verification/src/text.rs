use vstd::prelude::*;

verus! {

/// Appends `c` to `s` (`String::push`).
#[verifier::external_body]
pub(crate) fn push_char(s: &mut String, c: char)
    ensures
        final(s)@ == old(s)@.push(c),
{
    s.push(c)
}

/// The characters of `s`, in order.
pub fn chars_of(s: &str) -> (v: Vec<char>)
    ensures
        v@ == s@,
{
    let mut v: Vec<char> = Vec::new();
    for c in it: s.chars()
        invariant
            v@ == it.seq().take(it.index() as int),
            it.seq() == s@,
    {
        v.push(c);
    }
    v
}

/// The string made of the characters of `v`.
pub fn string_of(v: &Vec<char>) -> (s: String)
    ensures
        s@ == v@,
{
    let mut s = String::new();
    for i in 0..v.len()
        invariant
            s@ == v@.take(i as int),
    {
        push_char(&mut s, v[i]);
        assert(v@.take(i + 1) =~= v@.take(i as int).push(v@[i as int]));
    }
    assert(v@.take(v.len() as int) =~= v@);
    s
}


/// The views of a vector of strings.
pub open spec fn strings_of(v: &Vec<String>) -> Seq<Seq<char>> {
    v@.map_values(|s: String| s@)
}

/// `s` cut at every `c`, the way `str::split` cuts at a one-character
/// pattern: there is one piece more than there are `c`s.
pub open spec fn split_char(s: Seq<char>, c: char) -> Seq<Seq<char>>
    decreases s.len(),
{
    if s.len() == 0 {
        seq![Seq::empty()]
    } else {
        let p = split_char(s.drop_last(), c);
        if s.last() == c {
            p.push(Seq::empty())
        } else {
            p.update(p.len() - 1, p.last().push(s.last()))
        }
    }
}

/// The pieces of `lines` with `sep` between each two of them.
pub open spec fn join_sep(lines: Seq<Seq<char>>, sep: Seq<char>) -> Seq<char>
    decreases lines.len(),
{
    if lines.len() == 0 {
        Seq::empty()
    } else if lines.len() == 1 {
        lines[0]
    } else {
        join_sep(lines.drop_last(), sep) + sep + lines.last()
    }
}

pub proof fn lemma_split_char_nonempty(s: Seq<char>, c: char)
    ensures
        split_char(s, c).len() >= 1,
    decreases s.len(),
{
    if s.len() > 0 {
        lemma_split_char_nonempty(s.drop_last(), c);
    }
}

/// Cutting `s` at every `c`, then putting a `c` between the pieces, gives
/// back `s`.
pub proof fn law_join_undoes_split(s: Seq<char>, c: char)
    ensures
        join_sep(split_char(s, c), seq![c]) == s,
    decreases s.len(),
{
    if s.len() > 0 {
        let p = split_char(s.drop_last(), c);
        law_join_undoes_split(s.drop_last(), c);
        lemma_split_char_nonempty(s.drop_last(), c);
        if s.last() == c {
            assert(p.push(Seq::empty()).drop_last() =~= p);
            assert(join_sep(p.push(Seq::<char>::empty()), seq![c]) =~= s);
        } else {
            let q = p.update(p.len() - 1, p.last().push(s.last()));
            assert(q.last() == p.last().push(s.last()));
            if p.len() == 1 {
                assert(join_sep(q, seq![c]) =~= s);
            } else {
                assert(q.drop_last() =~= p.drop_last());
                assert(join_sep(p, seq![c]) == join_sep(p.drop_last(), seq![c]) + seq![c] + p.last());
                assert(join_sep(q, seq![c]) == join_sep(p.drop_last(), seq![c]) + seq![c] + q.last());
                assert(s.drop_last().push(s.last()) =~= s);
                assert(join_sep(q, seq![c]) =~= s);
            }
        }
    }
}

/// Cutting `a`, a `c` and then `b` with no `c` in it gives the pieces of `a`
/// and then `b`.
pub proof fn lemma_split_after_sep(a: Seq<char>, b: Seq<char>, c: char)
    requires
        !b.contains(c),
    ensures
        split_char(a + seq![c] + b, c) == split_char(a, c).push(b),
    decreases b.len(),
{
    if b.len() == 0 {
        assert(b =~= Seq::<char>::empty());
        assert(a + seq![c] + b =~= a.push(c));
        assert((a.push(c)).drop_last() =~= a);
    } else {
        let b2 = b.drop_last();
        assert forall|x: char| b2.contains(x) implies b.contains(x) by {
            let k = choose|k: int| 0 <= k < b2.len() && b2[k] == x;
            assert(b[k] == x);
        }
        lemma_split_after_sep(a, b2, c);
        let all = a + seq![c] + b;
        assert(all.drop_last() =~= a + seq![c] + b2);
        assert(b[b.len() - 1] == b.last());
        assert(all.last() == b.last());
        assert(b.last() != c);
        let p = split_char(all.drop_last(), c);
        assert(p == split_char(a, c).push(b2));
        assert(split_char(all, c) == p.update(p.len() - 1, p.last().push(all.last())));
        assert(b2.push(b.last()) =~= b);
        assert(split_char(a, c).push(b2).update(split_char(a, c).len() as int, b) =~= split_char(a, c).push(b));
    }
}

/// Putting a `c` between pieces with no `c` in them, then cutting at every
/// `c`, gives back the pieces.
pub proof fn law_split_undoes_join(lines: Seq<Seq<char>>, c: char)
    requires
        lines.len() >= 1,
        forall|i: int| 0 <= i < lines.len() ==> !(#[trigger] lines[i]).contains(c),
    ensures
        split_char(join_sep(lines, seq![c]), c) == lines,
    decreases lines.len(),
{
    if lines.len() == 1 {
        lemma_no_sep_single(lines[0], c);
        assert(split_char(lines[0], c) =~= lines);
    } else {
        let init = lines.drop_last();
        assert forall|i: int| 0 <= i < init.len() implies !(#[trigger] init[i]).contains(c) by {
            assert(init[i] == lines[i]);
        }
        law_split_undoes_join(init, c);
        assert(!lines[lines.len() - 1].contains(c));
        lemma_split_after_sep(join_sep(init, seq![c]), lines.last(), c);
        assert(init.push(lines.last()) =~= lines);
    }
}

/// A piece with no `c` in it is not cut.
pub proof fn lemma_no_sep_single(s: Seq<char>, c: char)
    requires
        !s.contains(c),
    ensures
        split_char(s, c) == seq![s],
    decreases s.len(),
{
    if s.len() > 0 {
        let s2 = s.drop_last();
        assert forall|x: char| s2.contains(x) implies s.contains(x) by {
            let k = choose|k: int| 0 <= k < s2.len() && s2[k] == x;
            assert(s[k] == x);
        }
        lemma_no_sep_single(s2, c);
        assert(s[s.len() - 1] == s.last());
        assert(s2.push(s.last()) =~= s);
        assert(seq![s2].update(0, s2.push(s.last())) =~= seq![s]);
    } else {
        assert(s =~= Seq::<char>::empty());
        assert(split_char(s, c) =~= seq![s]);
    }
}

/// Cuts the characters of `v` at every `c`.
pub fn split_chars(v: &Vec<char>, c: char) -> (r: Vec<Vec<char>>)
    ensures
        r@.map_values(|l: Vec<char>| l@) == split_char(v@, c),
{
    let mut out: Vec<Vec<char>> = Vec::new();
    let mut cur: Vec<char> = Vec::new();
    for i in 0..v.len()
        invariant
            out@.map_values(|l: Vec<char>| l@).push(cur@) == split_char(v@.take(i as int), c),
    {
        let ghost before = out@.map_values(|l: Vec<char>| l@).push(cur@);
        assert(v@.take(i + 1).drop_last() =~= v@.take(i as int));
        if v[i] == c {
            out.push(cur);
            cur = Vec::new();
            assert(out@.map_values(|l: Vec<char>| l@).push(cur@) =~= before.push(Seq::empty()));
        } else {
            cur.push(v[i]);
            assert(out@.map_values(|l: Vec<char>| l@).push(cur@) =~= before.update(
                before.len() - 1,
                before.last().push(v@[i as int]),
            ));
        }
    }
    out.push(cur);
    assert(v@.take(v.len() as int) =~= v@);
    out
}

/// Turns each character vector into a string.
pub fn strings_from(v: Vec<Vec<char>>) -> (r: Vec<String>)
    ensures
        strings_of(&r) == v@.map_values(|l: Vec<char>| l@),
{
    let mut out: Vec<String> = Vec::new();
    for i in 0..v.len()
        invariant
            out.len() == i,
            forall|j: int| 0 <= j < i ==> (#[trigger] out@[j])@ == v@[j]@,
    {
        let s = string_of(&v[i]);
        out.push(s);
    }
    assert(strings_of(&out) =~= v@.map_values(|l: Vec<char>| l@));
    out
}

/// Cuts `s` at every `c` (`str::split` with a character).
pub fn split_string(s: &str, c: char) -> (r: Vec<String>)
    ensures
        strings_of(&r) == split_char(s@, c),
{
    let v = chars_of(s);
    let pieces = split_chars(&v, c);
    strings_from(pieces)
}

/// The strings of `v` with `sep` between each two (`join`).
pub fn join_strings(v: &Vec<String>, sep: &str) -> (r: String)
    ensures
        r@ == join_sep(strings_of(v), sep@),
{
    let mut r = String::new();
    for i in 0..v.len()
        invariant
            r@ == join_sep(strings_of(v).take(i as int), sep@),
    {
        assert(strings_of(v).take(i + 1).drop_last() =~= strings_of(v).take(i as int));
        if i != 0 {
            r.append(sep);
        }
        r.append(v[i].as_str());
        if i == 0 {
            assert(strings_of(v).take(1) =~= seq![v@[0]@]);
        }
    }
    assert(strings_of(v).take(v.len() as int) =~= strings_of(v));
    r
}


/// Whether `a` and `b` hold the same characters (`==` on strings).
pub fn eq_str(a: &str, b: &str) -> (r: bool)
    ensures
        r == (a@ == b@),
{
    let x = chars_of(a);
    let y = chars_of(b);
    if x.len() != y.len() {
        return false;
    }
    for i in 0..x.len()
        invariant
            x@ == a@,
            y@ == b@,
            x.len() == y.len(),
            forall|j: int| 0 <= j < i ==> x@[j] == y@[j],
    {
        if x[i] != y[i] {
            return false;
        }
    }
    assert(x@ =~= y@);
    true
}

pub open spec fn is_digit(c: char) -> bool {
    '0' <= c && c <= '9'
}

pub open spec fn all_digits(s: Seq<char>) -> bool {
    forall|i: int| 0 <= i < s.len() ==> is_digit(#[trigger] s[i])
}

pub open spec fn digit_value(c: char) -> nat {
    (c as int - '0' as int) as nat
}

/// The number that the decimal digits `s` write.
pub open spec fn decimal_value(s: Seq<char>) -> nat
    decreases s.len(),
{
    if s.len() == 0 {
        0
    } else {
        decimal_value(s.drop_last()) * 10 + digit_value(s.last())
    }
}

/// The digits of `s` once a leading `+` is dropped.
pub open spec fn unsigned_digits(s: Seq<char>) -> Seq<char> {
    if s.len() > 0 && s[0] == '+' {
        s.drop_first()
    } else {
        s
    }
}

/// What `str::parse::<usize>` gives: a number for an optional `+` and one or
/// more decimal digits whose value fits, nothing otherwise.
pub open spec fn parse_usize_spec(s: Seq<char>) -> Option<usize> {
    let d = unsigned_digits(s);
    if d.len() > 0 && all_digits(d) && decimal_value(d) <= usize::MAX {
        Some(decimal_value(d) as usize)
    } else {
        None
    }
}

pub open spec fn digit_char(d: nat) -> char {
    if d == 0 {
        '0'
    } else if d == 1 {
        '1'
    } else if d == 2 {
        '2'
    } else if d == 3 {
        '3'
    } else if d == 4 {
        '4'
    } else if d == 5 {
        '5'
    } else if d == 6 {
        '6'
    } else if d == 7 {
        '7'
    } else if d == 8 {
        '8'
    } else {
        '9'
    }
}

/// The decimal digits of `n`, without leading zeros (`to_string`).
pub open spec fn decimal_of(n: nat) -> Seq<char>
    decreases n,
{
    if n < 10 {
        seq![digit_char(n)]
    } else {
        decimal_of(n / 10).push(digit_char(n % 10))
    }
}

pub proof fn lemma_decimal_prefix_le(s: Seq<char>, k: int)
    requires
        0 <= k <= s.len(),
    ensures
        decimal_value(s.subrange(0, k)) <= decimal_value(s),
    decreases s.len(),
{
    if k < s.len() {
        lemma_decimal_prefix_le(s.drop_last(), k);
        assert(s.drop_last().subrange(0, k) =~= s.subrange(0, k));
    } else {
        assert(s.subrange(0, k) =~= s);
    }
}

pub proof fn lemma_digit_char(d: nat)
    requires
        d < 10,
    ensures
        is_digit(digit_char(d)),
        digit_value(digit_char(d)) == d,
{
    assert('0' as int == 48);
    assert('9' as int == 57);
    if d == 0 {
    } else if d == 1 {
        assert('1' as int == 49);
    } else if d == 2 {
        assert('2' as int == 50);
    } else if d == 3 {
        assert('3' as int == 51);
    } else if d == 4 {
        assert('4' as int == 52);
    } else if d == 5 {
        assert('5' as int == 53);
    } else if d == 6 {
        assert('6' as int == 54);
    } else if d == 7 {
        assert('7' as int == 55);
    } else if d == 8 {
        assert('8' as int == 56);
    } else {
    }
}

pub proof fn lemma_decimal_of(n: nat)
    ensures
        decimal_of(n).len() > 0,
        all_digits(decimal_of(n)),
        decimal_of(n)[0] != '+',
        decimal_value(decimal_of(n)) == n,
    decreases n,
{
    if n >= 10 {
        lemma_decimal_of(n / 10);
        lemma_digit_char(n % 10);
        let p = decimal_of(n / 10);
        assert(decimal_of(n).drop_last() =~= p);
        assert(decimal_of(n)[0] == p[0]);
        assert(forall|i: int| 0 <= i < p.len() ==> decimal_of(n)[i] == p[i]);
        assert(decimal_of(n).last() == digit_char(n % 10));
        assert(decimal_value(decimal_of(n)) == decimal_value(p) * 10 + digit_value(digit_char(n % 10)));
        assert(n == (n / 10) * 10 + n % 10);
    } else {
        lemma_digit_char(n);
        assert(decimal_of(n).drop_last() =~= Seq::<char>::empty());
        assert(decimal_value(Seq::<char>::empty()) == 0);
        assert(decimal_of(n).last() == digit_char(n));
    }
}

/// Reading back the decimal digits of a number gives the number.
pub proof fn law_parse_undoes_decimal(n: usize)
    ensures
        parse_usize_spec(decimal_of(n as nat)) == Some(n),
{
    lemma_decimal_of(n as nat);
}

fn digit_of(d: usize) -> (c: char)
    requires
        d < 10,
    ensures
        c == digit_char(d as nat),
{
    if d == 0 {
        '0'
    } else if d == 1 {
        '1'
    } else if d == 2 {
        '2'
    } else if d == 3 {
        '3'
    } else if d == 4 {
        '4'
    } else if d == 5 {
        '5'
    } else if d == 6 {
        '6'
    } else if d == 7 {
        '7'
    } else if d == 8 {
        '8'
    } else {
        '9'
    }
}

/// The decimal digits of `n` (`n.to_string()`).
pub fn usize_to_string(n: usize) -> (s: String)
    ensures
        s@ == decimal_of(n as nat),
    decreases n,
{
    if n < 10 {
        let mut s = String::new();
        push_char(&mut s, digit_of(n));
        assert(s@ =~= decimal_of(n as nat));
        s
    } else {
        let mut s = usize_to_string(n / 10);
        push_char(&mut s, digit_of(n % 10));
        s
    }
}

/// Parses an unsigned decimal number (`str::parse::<usize>`).
pub fn parse_usize(s: &str) -> (r: Option<usize>)
    ensures
        r == parse_usize_spec(s@),
{
    let v = chars_of(s);
    let mut start: usize = 0;
    if v.len() > 0 && v[0] == '+' {
        start = 1;
    }
    let ghost d = unsigned_digits(s@);
    assert(d =~= v@.subrange(start as int, v.len() as int));
    if start == v.len() {
        return None;
    }
    let mut acc: usize = 0;
    for i in start..v.len()
        invariant
            v@ == s@,
            d == unsigned_digits(s@),
            d == v@.subrange(start as int, v.len() as int),
            start <= v.len(),
            acc == decimal_value(v@.subrange(start as int, i as int)),
            all_digits(v@.subrange(start as int, i as int)),
    {
        let c = v[i];
        let ghost pre = v@.subrange(start as int, i as int);
        let ghost next = v@.subrange(start as int, i + 1);
        assert(next.drop_last() =~= pre);
        if !('0' <= c && c <= '9') {
            assert(d[i - start] == c);
            assert(!is_digit(d[i - start]));
            return None;
        }
        let dv = (c as u32 - '0' as u32) as usize;
        assert(dv == digit_value(c));
        assert(next.last() == c);
        assert(decimal_value(next) == acc * 10 + dv);
        let m = acc.checked_mul(10);
        if m.is_none() {
            proof {
                lemma_decimal_prefix_le(d, i + 1 - start);
                assert(d.subrange(0, i + 1 - start) =~= next);
                assert(acc * 10 > usize::MAX);
                assert(decimal_value(d) > usize::MAX);
                assert(unsigned_digits(s@) == d);
                assert(parse_usize_spec(s@) is None);
            }
            return None;
        }
        let m = m.unwrap();
        let a = m.checked_add(dv);
        if a.is_none() {
            proof {
                lemma_decimal_prefix_le(d, i + 1 - start);
                assert(d.subrange(0, i + 1 - start) =~= next);
                assert(decimal_value(d) > usize::MAX);
                assert(unsigned_digits(s@) == d);
                assert(parse_usize_spec(s@) is None);
            }
            return None;
        }
        acc = a.unwrap();
        assert forall|j: int| 0 <= j < next.len() implies is_digit(#[trigger] next[j]) by {
            if j < pre.len() {
                assert(next[j] == pre[j]);
            }
        }
    }
    Some(acc)
}


/// `p` stands in `s` at position `i`.
pub open spec fn occurs_at(s: Seq<char>, p: Seq<char>, i: int) -> bool {
    0 <= i && i + p.len() <= s.len() && s.subrange(i, i + p.len()) == p
}

/// The first position at or after `from` where `p` stands in `s`, or `-1`.
pub open spec fn find_seq(s: Seq<char>, p: Seq<char>, from: int) -> int
    decreases s.len() + 1 - from,
{
    if from < 0 || from + p.len() > s.len() {
        -1
    } else if s.subrange(from, from + p.len()) == p {
        from
    } else {
        find_seq(s, p, from + 1)
    }
}

/// What `find_seq` gives: the first place of `p` at or after `from`, or
/// `-1` where there is none.
pub proof fn lemma_find_seq(s: Seq<char>, p: Seq<char>, from: int)
    requires
        0 <= from,
    ensures
        find_seq(s, p, from) == -1 || (from <= find_seq(s, p, from) && occurs_at(s, p, find_seq(s, p, from))),
        forall|j: int| from <= j && (find_seq(s, p, from) == -1 || j < find_seq(s, p, from)) ==> !occurs_at(s, p, j),
    decreases s.len() + 1 - from,
{
    if from + p.len() <= s.len() && s.subrange(from, from + p.len()) != p {
        lemma_find_seq(s, p, from + 1);
    }
}

pub open spec fn contains_seq(s: Seq<char>, p: Seq<char>) -> bool {
    exists|i: int| occurs_at(s, p, i)
}

pub open spec fn starts_with(s: Seq<char>, p: Seq<char>) -> bool {
    occurs_at(s, p, 0)
}

pub open spec fn ends_with(s: Seq<char>, p: Seq<char>) -> bool {
    p.len() <= s.len() && occurs_at(s, p, s.len() - p.len())
}

/// Whether `p` stands in `s` at `i`.
pub fn occurs_at_exec(s: &Vec<char>, p: &Vec<char>, i: usize) -> (r: bool)
    ensures
        r == occurs_at(s@, p@, i as int),
{
    if p.len() > s.len() || i > s.len() - p.len() {
        return false;
    }
    for k in 0..p.len()
        invariant
            i + p.len() <= s.len(),
            forall|j: int| 0 <= j < k ==> s@[i + j] == p@[j],
    {
        if s[i + k] != p[k] {
            assert(s@.subrange(i as int, i + p.len())[k as int] != p@[k as int]);
            return false;
        }
    }
    assert(s@.subrange(i as int, i + p.len()) =~= p@);
    true
}

/// The first position at or after `from` where `p` stands in `s`.
pub fn find_from(s: &Vec<char>, p: &Vec<char>, from: usize) -> (r: Option<usize>)
    ensures
        r == (if find_seq(s@, p@, from as int) < 0 { None } else { Some(find_seq(s@, p@, from as int) as usize) }),
{
    if p.len() > s.len() {
        return None;
    }
    let last = s.len() - p.len();
    if from > last {
        return None;
    }
    let mut i = from;
    loop
        invariant
            last + p.len() == s.len(),
            from <= i <= last,
            find_seq(s@, p@, from as int) == find_seq(s@, p@, i as int),
        decreases last - i,
    {
        if occurs_at_exec(s, p, i) {
            return Some(i);
        }
        if i == last {
            assert(find_seq(s@, p@, i + 1) == -1);
            return None;
        }
        i = i + 1;
    }
}

/// Whether `p` stands somewhere in `s`.
pub fn contains_exec(s: &Vec<char>, p: &Vec<char>) -> (r: bool)
    ensures
        r == contains_seq(s@, p@),
{
    let f = find_from(s, p, 0);
    proof {
        lemma_find_seq(s@, p@, 0);
    }
    f.is_some()
}

/// Whether `s` starts with `p`.
pub fn starts_with_exec(s: &Vec<char>, p: &Vec<char>) -> (r: bool)
    ensures
        r == starts_with(s@, p@),
{
    occurs_at_exec(s, p, 0)
}

/// Whether `s` ends with `p`.
pub fn ends_with_exec(s: &Vec<char>, p: &Vec<char>) -> (r: bool)
    ensures
        r == ends_with(s@, p@),
{
    if p.len() > s.len() {
        return false;
    }
    occurs_at_exec(s, p, s.len() - p.len())
}


/// The pieces of `s` from `start` on, cut at each place of `sep` found from
/// left to right, as `str::split` with a string pattern cuts.
pub open spec fn split_from(s: Seq<char>, sep: Seq<char>, start: int) -> Seq<Seq<char>>
    decreases s.len() + 1 - start,
{
    let i = find_seq(s, sep, start);
    if sep.len() == 0 || start < 0 || start > s.len() || i < 0 {
        seq![s.subrange(start, s.len() as int)]
    } else {
        proof {
            lemma_find_seq(s, sep, start);
        }
        seq![s.subrange(start, i)] + split_from(s, sep, i + sep.len())
    }
}

/// `s` cut at each place of `sep`.
pub open spec fn split_seq(s: Seq<char>, sep: Seq<char>) -> Seq<Seq<char>> {
    split_from(s, sep, 0)
}

/// Cuts `s` at each place of `sep` (`str::split` with a non-empty string).
pub fn split_str(s: &str, sep: &str) -> (r: Vec<String>)
    requires
        sep@.len() > 0,
    ensures
        strings_of(&r) == split_seq(s@, sep@),
{
    let v = chars_of(s);
    let p = chars_of(sep);
    let mut out: Vec<String> = Vec::new();
    let mut start: usize = 0;
    loop
        invariant
            v@ == s@,
            p@ == sep@,
            p@.len() > 0,
            start <= v.len(),
            strings_of(&out) + split_from(v@, p@, start as int) == split_from(v@, p@, 0),
        decreases v.len() + 1 - start,
    {
        let found = find_from(&v, &p, start);
        proof {
            lemma_find_seq(v@, p@, start as int);
        }
        let ghost before = strings_of(&out);
        match found {
            Some(i) => {
                let piece = string_of(&slice_vec(&v, start, i));
                out.push(piece);
                assert(strings_of(&out) =~= before.push(v@.subrange(start as int, i as int)));
                assert(split_from(v@, p@, start as int) == seq![v@.subrange(start as int, i as int)] + split_from(v@, p@, i + p@.len()));
                assert(strings_of(&out) + split_from(v@, p@, (i + p.len()) as int) =~= before + split_from(v@, p@, start as int));
                start = i + p.len();
            },
            None => {
                let piece = string_of(&slice_vec(&v, start, v.len()));
                out.push(piece);
                assert(strings_of(&out) =~= before + split_from(v@, p@, start as int));
                return out;
            },
        }
    }
}

/// The characters of `v` from `from` up to `to`.
pub fn slice_vec(v: &Vec<char>, from: usize, to: usize) -> (r: Vec<char>)
    requires
        from <= to <= v.len(),
    ensures
        r@ == v@.subrange(from as int, to as int),
{
    let mut r: Vec<char> = Vec::new();
    for i in from..to
        invariant
            to <= v.len(),
            r@ == v@.subrange(from as int, i as int),
    {
        r.push(v[i]);
        assert(r@ =~= v@.subrange(from as int, i + 1));
    }
    r
}


/// `sep` stands right after `f` and nowhere earlier in `f` followed by `sep`:
/// cutting at `sep` finds the end of `f`.
pub open spec fn ends_before_sep(f: Seq<char>, sep: Seq<char>) -> bool {
    find_seq(f + sep, sep, 0) == f.len()
}

/// The first place found in `a` stays the first place once more follows.
pub proof fn lemma_find_seq_extend(a: Seq<char>, r: Seq<char>, p: Seq<char>, from: int)
    requires
        0 <= from,
        find_seq(a, p, from) >= 0,
    ensures
        find_seq(a + r, p, from) == find_seq(a, p, from),
    decreases a.len() + 1 - from,
{
    assert(from + p.len() <= a.len());
    assert((a + r).subrange(from, from + p.len()) =~= a.subrange(from, from + p.len()));
    if a.subrange(from, from + p.len()) != p {
        lemma_find_seq_extend(a, r, p, from + 1);
    }
}

/// Searching after a prefix `q` is searching in the rest.
pub proof fn lemma_find_seq_shift(q: Seq<char>, r: Seq<char>, p: Seq<char>, k: int)
    requires
        0 <= k,
    ensures
        find_seq(q + r, p, q.len() + k) == if find_seq(r, p, k) < 0 {
            -1
        } else {
            q.len() + find_seq(r, p, k)
        },
    decreases r.len() + 1 - k,
{
    if k + p.len() <= r.len() {
        assert((q + r).subrange(q.len() + k, q.len() + k + p.len()) =~= r.subrange(k, k + p.len()));
        if r.subrange(k, k + p.len()) != p {
            lemma_find_seq_shift(q, r, p, k + 1);
        }
    }
}

/// Cutting after a prefix `q` is cutting the rest.
pub proof fn lemma_split_from_shift(q: Seq<char>, r: Seq<char>, p: Seq<char>, k: int)
    requires
        0 <= k <= r.len(),
        p.len() > 0,
    ensures
        split_from(q + r, p, q.len() + k) == split_from(r, p, k),
    decreases r.len() + 1 - k,
{
    lemma_find_seq_shift(q, r, p, k);
    lemma_find_seq(r, p, k);
    let i = find_seq(r, p, k);
    if i < 0 {
        assert((q + r).subrange(q.len() + k, (q + r).len() as int) =~= r.subrange(k, r.len() as int));
    } else {
        assert((q + r).subrange(q.len() + k, q.len() + i) =~= r.subrange(k, i));
        lemma_split_from_shift(q, r, p, i + p.len());
    }
}

/// A piece that ends right before a separator is cut off as one piece.
pub proof fn lemma_split_first_piece(f: Seq<char>, p: Seq<char>, r: Seq<char>)
    requires
        ends_before_sep(f, p),
        p.len() > 0,
    ensures
        split_seq(f + p + r, p) == seq![f] + split_seq(r, p),
{
    lemma_find_seq_extend(f + p, r, p, 0);
    let s = f + p + r;
    assert(s =~= (f + p) + r);
    assert(s.subrange(0, f.len() as int) =~= f);
    lemma_split_from_shift(f + p, r, p, 0);
}

/// With no separator in it, a text is one piece.
pub proof fn lemma_split_single(f: Seq<char>, p: Seq<char>)
    requires
        find_seq(f, p, 0) < 0,
    ensures
        split_seq(f, p) == seq![f],
{
    assert(f.subrange(0, f.len() as int) =~= f);
}

/// Joining can be read from the front: the first piece, a separator, and the
/// rest joined.
pub proof fn lemma_join_sep_front(fs: Seq<Seq<char>>, p: Seq<char>)
    requires
        fs.len() >= 2,
    ensures
        join_sep(fs, p) == fs[0] + p + join_sep(fs.drop_first(), p),
    decreases fs.len(),
{
    if fs.len() == 2 {
        assert(fs.drop_last() =~= seq![fs[0]]);
        assert(fs.drop_first() =~= seq![fs[1]]);
        assert(join_sep(seq![fs[0]], p) == fs[0]);
        assert(join_sep(seq![fs[1]], p) == fs[1]);
        assert(join_sep(fs, p) == join_sep(fs.drop_last(), p) + p + fs.last());
        assert(join_sep(fs, p) =~= fs[0] + p + join_sep(fs.drop_first(), p));
    } else {
        let d = fs.drop_last();
        let f = fs.drop_first();
        lemma_join_sep_front(d, p);
        assert(d.drop_first() =~= f.drop_last());
        assert(f.last() == fs.last());
        assert(d[0] == fs[0]);
        assert(join_sep(f, p) == join_sep(f.drop_last(), p) + p + f.last());
        assert(join_sep(fs, p) == join_sep(d, p) + p + fs.last());
        assert(join_sep(fs, p) =~= fs[0] + p + join_sep(f, p));
    }
}

/// Text put after a join goes to the end of the last piece.
pub proof fn lemma_join_sep_append(fs: Seq<Seq<char>>, p: Seq<char>, x: Seq<char>)
    requires
        fs.len() >= 1,
    ensures
        join_sep(fs, p) + x == join_sep(fs.update(fs.len() - 1, fs.last() + x), p),
{
    let u = fs.update(fs.len() - 1, fs.last() + x);
    if fs.len() > 1 {
        assert(u.drop_last() =~= fs.drop_last());
    }
    assert(join_sep(fs, p) + x =~= join_sep(u, p));
}

/// Pieces that each end right before the separator, and a last piece with no
/// separator in it, come back from cutting their join.
pub proof fn law_split_undoes_join_sep(fs: Seq<Seq<char>>, p: Seq<char>)
    requires
        fs.len() >= 1,
        p.len() > 0,
        forall|i: int| 0 <= i < fs.len() - 1 ==> ends_before_sep(#[trigger] fs[i], p),
        find_seq(fs.last(), p, 0) < 0,
    ensures
        split_seq(join_sep(fs, p), p) == fs,
    decreases fs.len(),
{
    if fs.len() == 1 {
        lemma_split_single(fs[0], p);
    } else {
        let rest = fs.drop_first();
        assert forall|i: int| 0 <= i < rest.len() - 1 implies ends_before_sep(#[trigger] rest[i], p) by {
            assert(rest[i] == fs[i + 1]);
        }
        assert(rest.last() == fs.last());
        law_split_undoes_join_sep(rest, p);
        lemma_join_sep_front(fs, p);
        assert(ends_before_sep(fs[0], p));
        lemma_split_first_piece(fs[0], p, join_sep(rest, p));
        assert(seq![fs[0]] + rest =~= fs);
    }
}

} // verus!
