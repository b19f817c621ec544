//! Character-level string utilities with exact specifications.

use vstd::prelude::*;

verus! {

/// `String::push` from std: appends one character to the end of the string.
#[verifier::external_body]
fn push_char(s: &mut String, c: char)
    ensures
        final(s)@ == old(s)@.push(c),
{
    s.push(c);
}

/// The characters of `s`, in order.
pub fn chars_of(s: &str) -> (r: Vec<char>)
    ensures
        r@ == s@,
{
    let mut out: Vec<char> = Vec::new();
    for c in it: s.chars()
        invariant
            out@ == it.seq().take(it.index() as int),
            it.seq() == s@,
    {
        out.push(c);
    }
    out
}

/// The string made of the characters of `v`, in order.
pub fn string_of(v: &Vec<char>) -> (r: String)
    ensures
        r@ == v@,
{
    let mut out = String::new();
    let mut i: usize = 0;
    while i < v.len()
        invariant
            i <= v.len(),
            out@ == v@.take(i as int),
        decreases v.len() - i,
    {
        push_char(&mut out, v[i]);
        i = i + 1;
        assert(out@ =~= v@.take(i as int));
    }
    assert(v@.take(i as int) =~= v@);
    out
}

/// Appends all of `src` to `dst`.
pub fn extend_chars(dst: &mut Vec<char>, src: &Vec<char>)
    ensures
        final(dst)@ == old(dst)@ + src@,
{
    let mut i: usize = 0;
    while i < src.len()
        invariant
            i <= src.len(),
            dst@ == old(dst)@ + src@.take(i as int),
        decreases src.len() - i,
    {
        dst.push(src[i]);
        i = i + 1;
        assert(dst@ =~= old(dst)@ + src@.take(i as int));
    }
    assert(src@.take(i as int) =~= src@);
}

/// `needle` occurs in `hay` starting at position `i`.
pub open spec fn occurs_at(hay: Seq<char>, needle: Seq<char>, i: int) -> bool {
    0 <= i && i + needle.len() <= hay.len() && hay.subrange(i, i + needle.len()) == needle
}

/// `needle` occurs somewhere in `hay` (the empty needle occurs everywhere).
pub open spec fn contains_seq(hay: Seq<char>, needle: Seq<char>) -> bool {
    exists|i: int| occurs_at(hay, needle, i)
}

/// Position of the first occurrence of `needle` in `hay`, if any.
pub open spec fn first_occurrence(hay: Seq<char>, needle: Seq<char>) -> Option<int> {
    if contains_seq(hay, needle) {
        Some(choose|i: int| occurs_at(hay, needle, i) && forall|j: int| 0 <= j < i ==> !occurs_at(hay, needle, j))
    } else {
        None
    }
}

proof fn lemma_minimal_occurrence(hay: Seq<char>, needle: Seq<char>, w: int)
    requires
        occurs_at(hay, needle, w),
    ensures
        exists|k: int| occurs_at(hay, needle, k) && forall|j: int| 0 <= j < k ==> !occurs_at(hay, needle, j),
    decreases w,
{
    if exists|j: int| 0 <= j < w && occurs_at(hay, needle, j) {
        let j = choose|j: int| 0 <= j < w && occurs_at(hay, needle, j);
        lemma_minimal_occurrence(hay, needle, j);
    } else {
        assert(occurs_at(hay, needle, w) && forall|j: int| 0 <= j < w ==> !occurs_at(hay, needle, j));
    }
}

/// The first occurrence is an occurrence, and none comes before it.
pub proof fn lemma_first_occurrence(hay: Seq<char>, needle: Seq<char>)
    ensures
        match first_occurrence(hay, needle) {
            Some(i) => occurs_at(hay, needle, i) && forall|j: int| 0 <= j < i ==> !occurs_at(hay, needle, j),
            None => forall|j: int| !occurs_at(hay, needle, j),
        },
{
    if contains_seq(hay, needle) {
        let w = choose|i: int| occurs_at(hay, needle, i);
        lemma_minimal_occurrence(hay, needle, w);
    }
}

/// Whether `needle` occurs in `hay` at position `i` (no bound assumed on `i`).
fn matches_at(hay: &Vec<char>, needle: &Vec<char>, i: usize) -> (r: bool)
    ensures
        r == occurs_at(hay@, needle@, i as int),
{
    if i > hay.len() || needle.len() > hay.len() - i {
        return false;
    }
    let mut k: usize = 0;
    while k < needle.len()
        invariant
            i + needle.len() <= hay.len(),
            k <= needle.len(),
            forall|m: int| 0 <= m < k ==> hay@[i + m] == needle@[m],
        decreases needle.len() - k,
    {
        if hay[i + k] != needle[k] {
            assert(hay@.subrange(i as int, i + needle.len())[k as int] != needle@[k as int]);
            return false;
        }
        k = k + 1;
    }
    assert(hay@.subrange(i as int, i + needle.len()) =~= needle@);
    true
}

/// The position of the first occurrence of `needle` in `hay`.
pub fn find_chars(hay: &Vec<char>, needle: &Vec<char>) -> (r: Option<usize>)
    ensures
        r matches Some(i) ==> first_occurrence(hay@, needle@) == Some(i as int),
        r is None <==> first_occurrence(hay@, needle@) is None,
{
    let mut i: usize = 0;
    loop
        invariant
            i <= hay.len(),
            forall|j: int| 0 <= j < i ==> !occurs_at(hay@, needle@, j),
        ensures
            forall|j: int| 0 <= j <= hay.len() ==> !occurs_at(hay@, needle@, j),
        decreases hay.len() - i,
    {
        if matches_at(hay, needle, i) {
            let ghost w = choose|k: int|
                occurs_at(hay@, needle@, k) && forall|j: int| 0 <= j < k ==> !occurs_at(hay@, needle@, j);
            assert(occurs_at(hay@, needle@, i as int));
            assert(w == i as int) by {
                if w < i {
                } else if w > i {
                }
            }
            return Some(i);
        }
        if i == hay.len() {
            break;
        }
        i = i + 1;
    }
    assert forall|j: int| !occurs_at(hay@, needle@, j) by {
        if 0 <= j <= hay.len() {
        }
    }
    None
}

/// Whether `needle` occurs in `hay`.
pub fn contains_chars(hay: &Vec<char>, needle: &Vec<char>) -> (r: bool)
    ensures
        r == contains_seq(hay@, needle@),
{
    find_chars(hay, needle).is_some()
}

/// `s` with every non-overlapping occurrence of `pat`, scanned from the left,
/// replaced by `to` (the meaning of `str::replace` for a non-empty pattern).
pub open spec fn replaced(s: Seq<char>, pat: Seq<char>, to: Seq<char>) -> Seq<char>
    decreases s.len(),
{
    if s.len() == 0 || pat.len() == 0 {
        s
    } else if pat.len() <= s.len() && s.subrange(0, pat.len() as int) == pat {
        to + replaced(s.skip(pat.len() as int), pat, to)
    } else {
        seq![s[0]] + replaced(s.skip(1), pat, to)
    }
}

/// Replaces every non-overlapping occurrence of `pat` in `s`, from the left, by `to`.
pub fn replace_chars(s: &Vec<char>, pat: &Vec<char>, to: &Vec<char>) -> (r: Vec<char>)
    requires
        pat.len() > 0,
    ensures
        r@ == replaced(s@, pat@, to@),
{
    let mut out: Vec<char> = Vec::new();
    let mut i: usize = 0;
    assert(s@.skip(0) =~= s@);
    while i < s.len()
        invariant
            pat.len() > 0,
            i <= s.len(),
            out@ + replaced(s@.skip(i as int), pat@, to@) == replaced(s@, pat@, to@),
        decreases s.len() - i,
    {
        let ghost rest = s@.skip(i as int);
        if matches_at(s, pat, i) {
            assert(rest.subrange(0, pat.len() as int) =~= s@.subrange(i as int, i + pat.len()));
            assert(rest.skip(pat.len() as int) =~= s@.skip(i + pat.len()));
            extend_chars(&mut out, to);
            i = i + pat.len();
            assert(out@ + replaced(s@.skip(i as int), pat@, to@) =~= replaced(s@, pat@, to@));
        } else {
            assert(!(pat.len() <= rest.len() && rest.subrange(0, pat.len() as int) == pat@)) by {
                if pat.len() <= rest.len() && rest.subrange(0, pat.len() as int) == pat@ {
                    assert(rest.subrange(0, pat.len() as int) =~= s@.subrange(i as int, i + pat.len()));
                }
            }
            assert(rest.skip(1) =~= s@.skip(i + 1));
            out.push(s[i]);
            i = i + 1;
            assert(out@ + replaced(s@.skip(i as int), pat@, to@) =~= replaced(s@, pat@, to@));
        }
    }
    assert(s@.skip(i as int) =~= Seq::<char>::empty());
    assert(out@ + Seq::<char>::empty() =~= out@);
    out
}

/// `s` without the characters of `set` at its front.
pub open spec fn trimmed_front(s: Seq<char>, set: Seq<char>) -> Seq<char>
    decreases s.len(),
{
    if s.len() > 0 && set.contains(s[0]) {
        trimmed_front(s.skip(1), set)
    } else {
        s
    }
}

/// `s` without the characters of `set` at its back.
pub open spec fn trimmed_back(s: Seq<char>, set: Seq<char>) -> Seq<char>
    decreases s.len(),
{
    if s.len() > 0 && set.contains(s.last()) {
        trimmed_back(s.drop_last(), set)
    } else {
        s
    }
}

/// `s` with every leading and trailing character that belongs to `set` removed
/// (the meaning of `str::trim_matches` with a predicate that tests membership in `set`).
pub open spec fn trimmed(s: Seq<char>, set: Seq<char>) -> Seq<char> {
    trimmed_back(trimmed_front(s, set), set)
}

fn member(set: &Vec<char>, c: char) -> (r: bool)
    ensures
        r == set@.contains(c),
{
    let mut k: usize = 0;
    while k < set.len()
        invariant
            k <= set.len(),
            forall|m: int| 0 <= m < k ==> set@[m] != c,
        decreases set.len() - k,
    {
        if set[k] == c {
            assert(set@[k as int] == c);
            return true;
        }
        k = k + 1;
    }
    false
}

/// Removes from both ends of `s` every character that belongs to `set`.
pub fn trim_chars(s: &Vec<char>, set: &Vec<char>) -> (r: Vec<char>)
    ensures
        r@ == trimmed(s@, set@),
{
    let mut start: usize = 0;
    assert(s@.skip(0) =~= s@);
    while start < s.len() && member(set, s[start])
        invariant
            start <= s.len(),
            trimmed_front(s@.skip(start as int), set@) == trimmed_front(s@, set@),
        decreases s.len() - start,
    {
        assert(s@.skip(start as int).skip(1) =~= s@.skip(start + 1));
        start = start + 1;
    }
    let ghost front = s@.skip(start as int);
    assert(trimmed_front(front, set@) == front);
    let mut end: usize = s.len();
    assert(front.take(end - start) =~= front);
    while end > start && member(set, s[end - 1])
        invariant
            start <= end <= s.len(),
            front == s@.skip(start as int),
            trimmed_back(front.take(end - start), set@) == trimmed_back(front, set@),
        decreases end,
    {
        assert(front.take(end - start).drop_last() =~= front.take(end - 1 - start));
        end = end - 1;
    }
    let mut out: Vec<char> = Vec::new();
    let mut k: usize = start;
    while k < end
        invariant
            start <= k <= end <= s.len(),
            out@ == s@.subrange(start as int, k as int),
        decreases end - k,
    {
        out.push(s[k]);
        k = k + 1;
        assert(out@ =~= s@.subrange(start as int, k as int));
    }
    assert(front.take(end - start) =~= s@.subrange(start as int, end as int));
    out
}

/// The pieces of `s` between occurrences of `sep`, in order, empty pieces included
/// (the meaning of `str::split` with a `char` pattern).
pub open spec fn split_on(s: Seq<char>, sep: char) -> Seq<Seq<char>>
    decreases s.len(),
{
    if s.len() == 0 {
        seq![Seq::<char>::empty()]
    } else {
        let init = split_on(s.drop_last(), sep);
        if s.last() == sep {
            init.push(Seq::<char>::empty())
        } else {
            init.update(init.len() - 1, init.last().push(s.last()))
        }
    }
}

/// There is always at least one piece.
pub proof fn lemma_split_on_nonempty(s: Seq<char>, sep: char)
    ensures
        split_on(s, sep).len() >= 1,
    decreases s.len(),
{
    if s.len() > 0 {
        lemma_split_on_nonempty(s.drop_last(), sep);
    }
}

/// The character sequences held by a vector of character vectors.
pub open spec fn char_seqs(v: Seq<Vec<char>>) -> Seq<Seq<char>> {
    v.map_values(|x: Vec<char>| x@)
}

/// Splits `s` at every occurrence of `sep`.
pub fn split_chars(s: &Vec<char>, sep: char) -> (r: Vec<Vec<char>>)
    ensures
        char_seqs(r@) == split_on(s@, sep),
{
    let mut pieces: Vec<Vec<char>> = Vec::new();
    let mut cur: Vec<char> = Vec::new();
    let mut i: usize = 0;
    assert(s@.take(0) =~= Seq::<char>::empty());
    assert(char_seqs(pieces@).push(cur@) =~= split_on(s@.take(0), sep));
    while i < s.len()
        invariant
            i <= s.len(),
            char_seqs(pieces@).push(cur@) == split_on(s@.take(i as int), sep),
        decreases s.len() - i,
    {
        let ghost before = char_seqs(pieces@);
        let ghost cur_before = cur@;
        assert(s@.take(i + 1).drop_last() =~= s@.take(i as int));
        assert(s@.take(i + 1).last() == s@[i as int]);
        if s[i] == sep {
            pieces.push(cur);
            cur = Vec::new();
            assert(char_seqs(pieces@) =~= before.push(cur_before));
            assert(char_seqs(pieces@).push(cur@) =~= split_on(s@.take(i + 1), sep));
        } else {
            cur.push(s[i]);
            assert(char_seqs(pieces@).push(cur@) =~= before.push(cur_before).update(
                before.len() as int,
                cur_before.push(s@[i as int]),
            ));
        }
        i = i + 1;
    }
    assert(s@.take(i as int) =~= s@);
    let ghost before = char_seqs(pieces@);
    pieces.push(cur);
    assert(char_seqs(pieces@) =~= split_on(s@, sep));
    pieces
}

/// `c` is an ASCII decimal digit.
pub open spec fn is_digit(c: char) -> bool {
    '0' <= c && c <= '9'
}

/// Every character of `s` is an ASCII decimal digit.
pub open spec fn all_digits(s: Seq<char>) -> bool {
    forall|i: int| 0 <= i < s.len() ==> is_digit(#[trigger] s[i])
}

/// The number that the decimal digits `s` denote (0 for no digits).
pub open spec fn decimal_value(s: Seq<char>) -> nat
    decreases s.len(),
{
    if s.len() == 0 {
        0
    } else {
        decimal_value(s.drop_last()) * 10 + ((s.last() as int - '0' as int) as nat)
    }
}

/// A longer digit string never denotes a smaller number than its prefixes.
pub proof fn lemma_decimal_value_prefix(s: Seq<char>, i: int)
    requires
        all_digits(s),
        0 <= i <= s.len(),
    ensures
        decimal_value(s.take(i)) <= decimal_value(s),
    decreases s.len(),
{
    if i < s.len() {
        assert(all_digits(s.drop_last())) by {
            assert forall|k: int| 0 <= k < s.drop_last().len() implies is_digit(#[trigger] s.drop_last()[k]) by {
                assert(s.drop_last()[k] == s[k]);
            }
        }
        assert(s.drop_last().take(i) =~= s.take(i));
        lemma_decimal_value_prefix(s.drop_last(), i);
    } else {
        assert(s.take(i) =~= s);
    }
}

/// The value `str::parse::<usize>` gives for `s`: an optional leading `+`,
/// then at least one decimal digit and nothing else, denoting a number that fits.
pub open spec fn parsed_usize(s: Seq<char>) -> Option<usize> {
    let d = if s.len() > 0 && s[0] == '+' { s.skip(1) } else { s };
    if d.len() > 0 && all_digits(d) && decimal_value(d) <= usize::MAX {
        Some(decimal_value(d) as usize)
    } else {
        None
    }
}

/// Parses an unsigned decimal number as `str::parse::<usize>` does.
pub fn parse_usize(s: &Vec<char>) -> (r: Option<usize>)
    ensures
        r == parsed_usize(s@),
{
    let start: usize = if s.len() > 0 && s[0] == '+' { 1 } else { 0 };
    let ghost d = if s@.len() > 0 && s@[0] == '+' { s@.skip(1) } else { s@ };
    assert(d =~= s@.skip(start as int));
    if start == s.len() {
        return None;
    }
    let mut acc: usize = 0;
    let mut i: usize = start;
    assert(d.take(0) =~= Seq::<char>::empty());
    while i < s.len()
        invariant
            start <= i <= s.len(),
            d == s@.skip(start as int),
            d == (if s@.len() > 0 && s@[0] == '+' { s@.skip(1) } else { s@ }),
            all_digits(d.take(i - start)),
            acc == decimal_value(d.take(i - start)),
        decreases s.len() - i,
    {
        let c = s[i];
        let ghost t = d.take(i + 1 - start);
        assert(t.drop_last() =~= d.take(i - start));
        assert(t.last() == c);
        if !('0' <= c && c <= '9') {
            assert(!is_digit(d[i - start]));
            assert(!all_digits(d));
            return None;
        }
        let digit: usize = (c as u32 - '0' as u32) as usize;
        assert(decimal_value(t) == decimal_value(d.take(i - start)) * 10 + digit);
        assert(all_digits(t)) by {
            assert forall|k: int| 0 <= k < t.len() implies is_digit(#[trigger] t[k]) by {
                if k < t.len() - 1 {
                    assert(t[k] == d.take(i - start)[k]);
                }
            }
        }
        match acc.checked_mul(10) {
            Some(m) => match m.checked_add(digit) {
                Some(v) => {
                    acc = v;
                }
                None => {
                    proof {
                        if all_digits(d) {
                            lemma_decimal_value_prefix(d, i + 1 - start);
                            assert(decimal_value(d) > usize::MAX);
                        }
                    }
                    return None;
                }
            },
            None => {
                proof {
                    if all_digits(d) {
                        lemma_decimal_value_prefix(d, i + 1 - start);
                    }
                }
                return None;
            }
        }
        i = i + 1;
    }
    assert(d.take(i - start) =~= d);
    Some(acc)
}

/// The decimal digit for `d < 10`.
pub open spec fn digit_char(d: nat) -> char {
    (('0' as u32) + d) as char
}

/// The decimal digits of `n`, most significant first, without leading zeros
/// (`0` for zero): what `format!("{}", n)` writes for an unsigned integer.
pub open spec fn decimal_text(n: nat) -> Seq<char>
    decreases n,
{
    if n < 10 {
        seq![digit_char(n)]
    } else {
        decimal_text(n / 10).push(digit_char(n % 10))
    }
}

/// Writes `n` in decimal.
pub fn usize_text(n: usize) -> (r: String)
    ensures
        r@ == decimal_text(n as nat),
{
    let mut digits: Vec<char> = Vec::new();
    let mut m: usize = n;
    assert(digits@.reverse() =~= Seq::<char>::empty());
    assert(decimal_text(n as nat) =~= decimal_text(m as nat) + digits@.reverse());
    loop
        invariant_except_break
            m <= n,
            decimal_text(n as nat) == decimal_text(m as nat) + digits@.reverse(),
        ensures
            decimal_text(n as nat) == digits@.reverse(),
        decreases m,
    {
        let d = m % 10;
        let c: char = char_of_digit(d);
        let ghost before = digits@;
        digits.push(c);
        assert(digits@.reverse() =~= seq![c] + before.reverse());
        if m < 10 {
            assert(decimal_text(m as nat) == seq![c]);
            break;
        }
        assert(decimal_text(m as nat) == decimal_text((m / 10) as nat).push(c));
        assert(decimal_text(m as nat) + before.reverse() =~= decimal_text((m / 10) as nat) + digits@.reverse());
        m = m / 10;
    }
    let mut out: Vec<char> = Vec::new();
    let mut i: usize = digits.len();
    while i > 0
        invariant
            i <= digits.len(),
            out@ =~= digits@.subrange(i as int, digits.len() as int).reverse(),
        decreases i,
    {
        i = i - 1;
        out.push(digits[i]);
        assert(out@ =~= digits@.subrange(i as int, digits.len() as int).reverse());
    }
    assert(digits@.subrange(0, digits.len() as int) =~= digits@);
    string_of(&out)
}

fn char_of_digit(d: usize) -> (c: char)
    requires
        d < 10,
    ensures
        c == digit_char(d as nat),
{
    if d == 0 { '0' } else if d == 1 { '1' } else if d == 2 { '2' } else if d == 3 { '3' } else if d == 4 { '4' }
    else if d == 5 { '5' } else if d == 6 { '6' } else if d == 7 { '7' } else if d == 8 { '8' } else { '9' }
}

/// Writing a number in decimal and reading it back gives the number:
/// `parse_usize` undoes `usize_text`.
pub proof fn lemma_decimal_round_trip(n: usize)
    ensures
        parsed_usize(decimal_text(n as nat)) == Some(n),
{
    lemma_decimal_text_value(n as nat);
    let t = decimal_text(n as nat);
    assert(t[0] != '+') by {
        lemma_decimal_text_first(n as nat);
    }
}

proof fn lemma_decimal_text_first(n: nat)
    ensures
        decimal_text(n).len() > 0,
        is_digit(decimal_text(n)[0]),
    decreases n,
{
    if n >= 10 {
        lemma_decimal_text_first(n / 10);
    }
}

proof fn lemma_decimal_text_value(n: nat)
    ensures
        decimal_text(n).len() > 0,
        all_digits(decimal_text(n)),
        decimal_value(decimal_text(n)) == n,
    decreases n,
{
    if n >= 10 {
        lemma_decimal_text_value(n / 10);
        let t = decimal_text(n);
        assert(t.drop_last() =~= decimal_text(n / 10));
        assert(t.last() == digit_char(n % 10));
        assert(digit_char(n % 10) as int - '0' as int == n % 10);
        assert(n == (n / 10) * 10 + n % 10);
        assert(all_digits(t)) by {
            assert forall|i: int| 0 <= i < t.len() implies is_digit(#[trigger] t[i]) by {
                if i < t.len() - 1 {
                    assert(t[i] == decimal_text(n / 10)[i]);
                }
            }
        }
    } else {
        let t = decimal_text(n);
        assert(t.drop_last() =~= Seq::<char>::empty());
        assert(digit_char(n) as int - '0' as int == n);
        assert(decimal_value(t) == decimal_value(t.drop_last()) * 10 + (t.last() as int - '0' as int));
    }
}

/// Replacing a one-character pattern by text that lacks `d` leaves no `d` behind when
/// `d` is the pattern's character, and adds none when `d` was absent.
pub proof fn lemma_replaced_char_absent(s: Seq<char>, c: char, to: Seq<char>, d: char)
    requires
        !to.contains(d),
        d == c || !s.contains(d),
    ensures
        !replaced(s, seq![c], to).contains(d),
    decreases s.len(),
{
    let pat = seq![c];
    if s.len() > 0 {
        let r = replaced(s, pat, to);
        assert(d == c || !s.skip(1).contains(d)) by {
            if d != c && s.skip(1).contains(d) {
                let k = choose|k: int| 0 <= k < s.skip(1).len() && s.skip(1)[k] == d;
                assert(s[k + 1] == d);
            }
        }
        if s.subrange(0, 1) == pat {
            assert(s.skip(1) == s.skip(pat.len() as int));
            lemma_replaced_char_absent(s.skip(1), c, to, d);
            let rest = replaced(s.skip(1), pat, to);
            assert(r == to + rest);
            assert(!r.contains(d)) by {
                if r.contains(d) {
                    let k = choose|k: int| 0 <= k < r.len() && r[k] == d;
                    if k < to.len() {
                        assert(to[k] == d);
                    } else {
                        assert(rest[k - to.len()] == d);
                    }
                }
            }
        } else {
            assert(s[0] != c) by {
                if s[0] == c {
                    assert(s.subrange(0, 1) =~= pat);
                }
            }
            assert(s[0] != d) by {
                if d != c && s[0] == d {
                    assert(s.contains(d));
                }
            }
            lemma_replaced_char_absent(s.skip(1), c, to, d);
            let rest = replaced(s.skip(1), pat, to);
            assert(r == seq![s[0]] + rest);
            assert(!r.contains(d)) by {
                if r.contains(d) {
                    let k = choose|k: int| 0 <= k < r.len() && r[k] == d;
                    if k > 0 {
                        assert(rest[k - 1] == d);
                    }
                }
            }
        }
    }
}

/// Text without `sep` is a single piece.
pub proof fn lemma_split_without_separator(s: Seq<char>, sep: char)
    requires
        !s.contains(sep),
    ensures
        split_on(s, sep) == seq![s],
    decreases s.len(),
{
    if s.len() > 0 {
        assert(!s.drop_last().contains(sep)) by {
            if s.drop_last().contains(sep) {
                let k = choose|k: int| 0 <= k < s.drop_last().len() && s.drop_last()[k] == sep;
                assert(s[k] == sep);
            }
        }
        lemma_split_without_separator(s.drop_last(), sep);
        assert(s.last() != sep) by {
            assert(s[s.len() - 1] == s.last());
        }
        assert(s.drop_last().push(s.last()) =~= s);
        assert(seq![s.drop_last()].update(0, s.drop_last().push(s.last())) =~= seq![s]);
    } else {
        assert(s =~= Seq::<char>::empty());
    }
}

/// Splitting `a`, one `sep` and `b`, neither holding `sep`, gives exactly the two pieces `a` and `b`.
pub proof fn lemma_split_at_single_separator(a: Seq<char>, sep: char, b: Seq<char>)
    requires
        !a.contains(sep),
        !b.contains(sep),
    ensures
        split_on(a + seq![sep] + b, sep) == seq![a, b],
    decreases b.len(),
{
    let s = a + seq![sep] + b;
    if b.len() == 0 {
        assert(s.drop_last() =~= a);
        assert(s.last() == sep);
        assert(b =~= Seq::<char>::empty());
        lemma_split_without_separator(a, sep);
        assert(seq![a].push(Seq::<char>::empty()) =~= seq![a, b]);
    } else {
        assert(!b.drop_last().contains(sep)) by {
            if b.drop_last().contains(sep) {
                let k = choose|k: int| 0 <= k < b.drop_last().len() && b.drop_last()[k] == sep;
                assert(b[k] == sep);
            }
        }
        lemma_split_at_single_separator(a, sep, b.drop_last());
        assert(s.drop_last() =~= a + seq![sep] + b.drop_last());
        assert(s.last() == b[b.len() - 1]);
        assert(b.drop_last().push(b.last()) =~= b);
        assert(seq![a, b.drop_last()].update(1, b.drop_last().push(s.last())) =~= seq![a, b]);
    }
}

/// The decimal text of a number holds only digits.
pub proof fn lemma_decimal_text_digits(n: nat)
    ensures
        decimal_text(n).len() > 0,
        forall|i: int| 0 <= i < decimal_text(n).len() ==> is_digit(#[trigger] decimal_text(n)[i]),
{
    lemma_decimal_text_value(n);
}

/// Trimming the front of `lead + rest`, where every character of `lead` is in `set` and
/// `rest` does not start with one, leaves `rest`.
pub proof fn lemma_trimmed_front_drops(lead: Seq<char>, rest: Seq<char>, set: Seq<char>)
    requires
        forall|i: int| 0 <= i < lead.len() ==> set.contains(#[trigger] lead[i]),
        rest.len() > 0 ==> !set.contains(rest[0]),
    ensures
        trimmed_front(lead + rest, set) == rest,
    decreases lead.len(),
{
    let s = lead + rest;
    if lead.len() > 0 {
        assert(s[0] == lead[0]);
        assert(s.skip(1) =~= lead.skip(1) + rest);
        assert forall|i: int| 0 <= i < lead.skip(1).len() implies set.contains(#[trigger] lead.skip(1)[i]) by {
            assert(lead.skip(1)[i] == lead[i + 1]);
        }
        lemma_trimmed_front_drops(lead.skip(1), rest, set);
    } else {
        assert(s =~= rest);
    }
}

/// Trimming the back of `body + tail`, where every character of `tail` is in `set` and
/// `body` does not end with one, leaves `body`.
pub proof fn lemma_trimmed_back_drops(body: Seq<char>, tail: Seq<char>, set: Seq<char>)
    requires
        forall|i: int| 0 <= i < tail.len() ==> set.contains(#[trigger] tail[i]),
        body.len() > 0 ==> !set.contains(body.last()),
    ensures
        trimmed_back(body + tail, set) == body,
    decreases tail.len(),
{
    let s = body + tail;
    if tail.len() > 0 {
        assert(s.last() == tail[tail.len() - 1]);
        assert(s.drop_last() =~= body + tail.drop_last());
        assert forall|i: int| 0 <= i < tail.drop_last().len() implies set.contains(#[trigger] tail.drop_last()[i]) by {
            assert(tail.drop_last()[i] == tail[i]);
        }
        lemma_trimmed_back_drops(body, tail.drop_last(), set);
    } else {
        assert(s =~= body);
    }
}

} // verus!
