//! Character-level helpers on text.
//!
//! Specifications speak of text as a `Seq<char>`; the functions here are the executable
//! counterparts that the other modules build on.

use vstd::prelude::*;

verus! {

/// Index of the first `c` in `s`, or the length of `s` if there is none.
pub open spec fn position(s: Seq<char>, c: char) -> int
    decreases s.len(),
{
    if s.len() == 0 || s[0] == c {
        0
    } else {
        1 + position(s.drop_first(), c)
    }
}

/// The part of `s` in front of the first `c`; all of `s` if there is none.
pub open spec fn before(s: Seq<char>, c: char) -> Seq<char> {
    s.take(position(s, c))
}

/// The part of `s` behind the first `c`; empty if there is none.
pub open spec fn after(s: Seq<char>, c: char) -> Seq<char> {
    if position(s, c) < s.len() {
        s.skip(position(s, c) + 1)
    } else {
        Seq::empty()
    }
}

/// `s` without the run of `c` at its end.
pub open spec fn trim_end(s: Seq<char>, c: char) -> Seq<char>
    decreases s.len(),
{
    if s.len() > 0 && s.last() == c {
        trim_end(s.drop_last(), c)
    } else {
        s
    }
}

/// `s` without the run of `c` at its start.
pub open spec fn trim_start(s: Seq<char>, c: char) -> Seq<char>
    decreases s.len(),
{
    if s.len() > 0 && s[0] == c {
        trim_start(s.drop_first(), c)
    } else {
        s
    }
}

/// The views of a list of strings.
pub open spec fn views(items: Seq<String>) -> Seq<Seq<char>> {
    items.map_values(|s: String| s@)
}

/// The view of an optional string.
pub open spec fn view_of(item: Option<String>) -> Option<Seq<char>> {
    match item {
        Some(s) => Some(s@),
        None => None,
    }
}

/// The view of an optional text.
pub open spec fn str_view_of(item: Option<&str>) -> Option<Seq<char>> {
    match item {
        Some(s) => Some(s@),
        None => None,
    }
}

/// The view of a text, or of the error in place of one.
pub open spec fn result_view(item: Result<String, String>) -> Result<Seq<char>, Seq<char>> {
    match item {
        Ok(s) => Ok(s@),
        Err(message) => Err(message@),
    }
}

/// `position` is the least index that holds `c`.
pub proof fn lemma_position(s: Seq<char>, c: char)
    ensures
        0 <= position(s, c) <= s.len(),
        position(s, c) < s.len() ==> s[position(s, c)] == c,
        forall|i: int| 0 <= i < position(s, c) ==> s[i] != c,
        position(s, c) < s.len() <==> s.contains(c),
    decreases s.len(),
{
    if s.len() > 0 && s[0] != c {
        let rest = s.drop_first();
        lemma_position(rest, c);
        assert forall|i: int| 0 <= i < position(s, c) implies s[i] != c by {
            if i > 0 {
                assert(rest[i - 1] == s[i]);
            }
        }
        if s.contains(c) {
            let i = choose|i: int| 0 <= i < s.len() && s[i] == c;
            assert(rest[i - 1] == c);
        }
        if position(s, c) < s.len() {
            assert(s[position(s, c)] == rest[position(rest, c)]);
        }
    } else if s.len() > 0 {
        assert(s[0] == c);
    }
}

/// An index that holds `c` with no `c` in front of it is `position`.
pub proof fn lemma_position_unique(s: Seq<char>, c: char, k: int)
    requires
        0 <= k <= s.len(),
        forall|i: int| 0 <= i < k ==> s[i] != c,
        k < s.len() ==> s[k] == c,
    ensures
        position(s, c) == k,
{
    lemma_position(s, c);
    if position(s, c) < k {
        assert(s[position(s, c)] == c);
    }
}

/// What stands around a separator.
pub proof fn lemma_cut(front: Seq<char>, c: char, back: Seq<char>)
    requires
        !front.contains(c),
    ensures
        (front + seq![c] + back).contains(c),
        before(front + seq![c] + back, c) == front,
        after(front + seq![c] + back, c) == back,
{
    let all = front + seq![c] + back;
    let k = front.len() as int;
    assert(all[k] == c);
    assert forall|i: int| 0 <= i < k implies all[i] != c by {
        assert(all[i] == front[i]);
    }
    lemma_position_unique(all, c, k);
    assert(all.take(k) =~= front);
    assert(all.skip(k + 1) =~= back);
}

/// All of a text stands in front of a separator that it does not hold.
pub proof fn lemma_uncut(s: Seq<char>, c: char)
    requires
        !s.contains(c),
    ensures
        before(s, c) == s,
{
    lemma_position(s, c);
    assert(s.take(s.len() as int) =~= s);
}

/// The characters of a text.
pub fn chars_of(s: &str) -> (chars: Vec<char>)
    ensures
        chars@ == s@,
{
    let mut chars: Vec<char> = Vec::new();
    for c in it: s.chars()
        invariant
            chars@ == it.seq().take(it.index() as int),
            it.seq() == s@,
    {
        chars.push(c);
    }
    chars
}

/// Whether two texts are the same.
pub fn same(a: &str, b: &str) -> (r: bool)
    ensures
        r == (a@ == b@),
{
    a.to_owned() == b.to_owned()
}

/// A copy of a list of strings.
pub fn clone_strings(items: &Vec<String>) -> (r: Vec<String>)
    ensures
        r@ == items@,
{
    let r = items.clone();
    assert(r@ =~= items@) by {
        assert forall|i: int| 0 <= i < items@.len() implies (#[trigger] r@[i]) == items@[i] by {
            assert(cloned::<String>(items@[i], r@[i]));
        }
    }
    r
}

/// Whether `item` is in a list.
pub fn contains_text(items: &Vec<String>, item: &str) -> (r: bool)
    ensures
        r == views(items@).contains(item@),
{
    let mut i: usize = 0;
    while i < items.len()
        invariant
            i <= items@.len(),
            forall|j: int| 0 <= j < i ==> views(items@)[j] != item@,
        decreases items@.len() - i,
    {
        if same(items[i].as_str(), item) {
            assert(views(items@)[i as int] == item@);
            return true;
        }
        i += 1;
    }
    false
}

/// The characters of `s` from `from` up to, not including, `to`.
pub fn slice(s: &str, from: usize, to: usize) -> (r: String)
    requires
        from <= to <= s@.len(),
    ensures
        r@ == s@.subrange(from as int, to as int),
{
    s.substring_char(from, to).to_owned()
}

/// Whether `s` begins with `prefix`.
pub fn starts_with(s: &str, prefix: &str) -> (r: bool)
    ensures
        r == prefix@.is_prefix_of(s@),
{
    let n: usize = prefix.unicode_len();
    if n > s.unicode_len() {
        return false;
    }
    let head = slice(s, 0, n);
    assert(head@ == s@.subrange(0, prefix@.len() as int));
    same(head.as_str(), prefix)
}

/// Index of the first `c`, or the number of characters if there is none.
pub fn find(s: &str, c: char) -> (k: usize)
    ensures
        k == position(s@, c),
        k <= s@.len(),
{
    let chars = chars_of(s);
    let mut k: usize = 0;
    while k < chars.len() && chars[k] != c
        invariant
            k <= chars.len(),
            chars@ == s@,
            forall|i: int| 0 <= i < k ==> s@[i] != c,
        decreases chars.len() - k,
    {
        k += 1;
    }
    proof {
        lemma_position_unique(s@, c, k as int);
    }
    k
}

/// Whether `c` occurs in `s`.
pub fn contains_char(s: &str, c: char) -> (r: bool)
    ensures
        r == s@.contains(c),
{
    proof {
        lemma_position(s@, c);
    }
    find(s, c) < s.unicode_len()
}

/// The character of a decimal digit.
pub open spec fn digit_char(d: nat) -> char {
    ('0' as int + d) as char
}

/// A number, written in decimal without leading zeros.
pub open spec fn decimal_text(n: nat) -> Seq<char>
    decreases n,
{
    if n < 10 {
        seq![digit_char(n)]
    } else {
        decimal_text(n / 10).push(digit_char(n % 10))
    }
}

fn digit_str(d: u32) -> (r: &'static str)
    requires
        d < 10,
    ensures
        r@ == seq![digit_char(d as nat)],
{
    proof {
        reveal_strlit("0");
        reveal_strlit("1");
        reveal_strlit("2");
        reveal_strlit("3");
        reveal_strlit("4");
        reveal_strlit("5");
        reveal_strlit("6");
        reveal_strlit("7");
        reveal_strlit("8");
        reveal_strlit("9");
    }
    let r = match d {
        0 => "0",
        1 => "1",
        2 => "2",
        3 => "3",
        4 => "4",
        5 => "5",
        6 => "6",
        7 => "7",
        8 => "8",
        _ => "9",
    };
    assert(r@ =~= seq![digit_char(d as nat)]);
    r
}

/// Writes a number in decimal.
pub fn write_decimal(n: u32) -> (r: String)
    ensures
        r@ == decimal_text(n as nat),
    decreases n,
{
    if n < 10 {
        digit_str(n).to_owned()
    } else {
        let mut r = write_decimal(n / 10);
        r.append(digit_str(n % 10));
        assert(r@ =~= decimal_text(n as nat));
        r
    }
}

/// Index of the first `{}` in `s`, or the length of `s` if there is none.
pub open spec fn blank_position(s: Seq<char>) -> int
    decreases s.len(),
{
    if s.len() < 2 {
        s.len() as int
    } else if s[0] == '{' && s[1] == '}' {
        0
    } else {
        1 + blank_position(s.drop_first())
    }
}

/// `format` with each `{}` replaced, from the left, by the next of `fillings`, as far as both
/// reach.
pub open spec fn fill(format: Seq<char>, fillings: Seq<Seq<char>>) -> Seq<char>
    decreases fillings.len(),
{
    let k = blank_position(format);
    if fillings.len() == 0 || k >= format.len() {
        format
    } else {
        format.take(k) + fillings[0] + fill(format.skip(k + 2), fillings.drop_first())
    }
}

proof fn lemma_blank_position(s: Seq<char>)
    ensures
        0 <= blank_position(s) <= s.len(),
        blank_position(s) < s.len() ==> blank_position(s) + 2 <= s.len(),
    decreases s.len(),
{
    if s.len() >= 2 && !(s[0] == '{' && s[1] == '}') {
        lemma_blank_position(s.drop_first());
    }
}

/// Text without a `{}` in front of one does not change which one is the first.
proof fn lemma_first_blank(front: Seq<char>, rest: Seq<char>)
    requires
        blank_position(front) == front.len(),
        rest.len() >= 2,
        rest[0] == '{',
        rest[1] == '}',
    ensures
        blank_position(front + rest) == front.len(),
    decreases front.len(),
{
    let all = front + rest;
    if front.len() == 0 {
        assert(all =~= rest);
    } else {
        let shorter = front.drop_first();
        assert(all.drop_first() =~= shorter + rest);
        if front.len() == 1 {
            assert(all[1] == '{');
        } else {
            assert(all[0] == front[0] && all[1] == front[1]);
            lemma_blank_position(shorter);
        }
        lemma_first_blank(shorter, rest);
    }
}

/// The first filling takes the place of the first `{}`.
pub proof fn lemma_fill(front: Seq<char>, rest: Seq<char>, fillings: Seq<Seq<char>>)
    requires
        blank_position(front) == front.len(),
        fillings.len() > 0,
    ensures
        fill(front + "{}"@ + rest, fillings) == front + fillings[0] + fill(
            rest,
            fillings.drop_first(),
        ),
{
    reveal_strlit("{}");
    let format = front + "{}"@ + rest;
    assert(format =~= front + ("{}"@ + rest));
    lemma_first_blank(front, "{}"@ + rest);
    assert(format.take(front.len() as int) =~= front);
    assert(format.skip(front.len() as int + 2) =~= rest);
}

fn find_blank(chars: &Vec<char>, from: usize) -> (k: usize)
    requires
        from <= chars@.len(),
    ensures
        k == from + blank_position(chars@.skip(from as int)),
{
    let mut k: usize = from;
    while k < chars.len() && chars.len() - k >= 2 && !(chars[k] == '{' && chars[k + 1] == '}')
        invariant
            from <= k <= chars@.len(),
            from + blank_position(chars@.skip(from as int)) == k + blank_position(
                chars@.skip(k as int),
            ),
        decreases chars@.len() - k,
    {
        assert(chars@.skip(k as int).drop_first() =~= chars@.skip(k + 1));
        k += 1;
    }
    if k < chars.len() && chars.len() - k < 2 {
        k = chars.len();
    }
    k
}

/// Replaces each `{}` in `format`, from the left, by the next of `fillings`.
pub fn fill_format(format: &str, fillings: &Vec<String>) -> (r: String)
    ensures
        r@ == fill(format@, views(fillings@)),
{
    let chars = chars_of(format);
    let mut r = String::new();
    let mut from: usize = 0;
    let mut n: usize = 0;
    let ghost all = views(fillings@);
    assert(chars@.skip(0) =~= format@);
    assert(all.skip(0) =~= all);
    while n < fillings.len()
        invariant
            chars@ == format@,
            all == views(fillings@),
            n <= fillings@.len(),
            from <= chars@.len(),
            fill(format@, all) == r@ + fill(chars@.skip(from as int), all.skip(n as int)),
        decreases fillings@.len() - n,
    {
        let k = find_blank(&chars, from);
        proof {
            lemma_blank_position(chars@.skip(from as int));
        }
        if k >= chars.len() {
            r.append(format.substring_char(from, chars.len()));
            assert(r@ =~= fill(format@, all));
            return r;
        }
        let ghost before = r@;
        r.append(format.substring_char(from, k));
        r.append(fillings[n].as_str());
        proof {
            let rest = chars@.skip(from as int);
            assert(rest.take(blank_position(rest)) =~= chars@.subrange(from as int, k as int));
            assert(rest.skip(blank_position(rest) + 2) =~= chars@.skip(k + 2));
            assert(all.skip(n as int).drop_first() =~= all.skip(n + 1));
            assert(all.skip(n as int)[0] == fillings@[n as int]@);
            assert(r@ + fill(chars@.skip(k + 2), all.skip(n + 1)) =~= before + fill(
                rest,
                all.skip(n as int),
            ));
        }
        from = k + 2;
        n += 1;
    }
    r.append(format.substring_char(from, chars.len()));
    assert(r@ =~= fill(format@, all));
    r
}

/// `s` without the run of `c` at its end.
pub fn without_trailing(s: &str, c: char) -> (r: String)
    ensures
        r@ == trim_end(s@, c),
{
    let chars = chars_of(s);
    let mut end: usize = chars.len();
    assert(s@.take(s@.len() as int) =~= s@);
    while end > 0 && chars[end - 1] == c
        invariant
            chars@ == s@,
            end <= chars@.len(),
            trim_end(s@, c) == trim_end(s@.take(end as int), c),
        decreases end,
    {
        assert(s@.take(end as int).drop_last() =~= s@.take(end - 1));
        end -= 1;
    }
    assert(s@.take(end as int) =~= s@.subrange(0, end as int));
    slice(s, 0, end)
}

/// `s` without the run of `c` at its start.
pub fn without_leading(s: &str, c: char) -> (r: String)
    ensures
        r@ == trim_start(s@, c),
{
    let chars = chars_of(s);
    let mut start: usize = 0;
    assert(s@.skip(0) =~= s@);
    while start < chars.len() && chars[start] == c
        invariant
            chars@ == s@,
            start <= chars@.len(),
            trim_start(s@, c) == trim_start(s@.skip(start as int), c),
        decreases chars@.len() - start,
    {
        assert(s@.skip(start as int).drop_first() =~= s@.skip(start + 1));
        start += 1;
    }
    assert(s@.skip(start as int) =~= s@.subrange(start as int, s@.len() as int));
    slice(s, start, chars.len())
}

/// A text is what stands in front of the first separator, the separator, and what stands behind
/// it. Without a separator, all of it stands in front.
pub proof fn law_cut(s: Seq<char>, c: char)
    ensures
        !before(s, c).contains(c),
        s.contains(c) ==> before(s, c) + seq![c] + after(s, c) == s,
        !s.contains(c) ==> before(s, c) == s && after(s, c).len() == 0,
{
    lemma_position(s, c);
    if before(s, c).contains(c) {
        let i = choose|i: int| 0 <= i < before(s, c).len() && before(s, c)[i] == c;
        assert(s[i] == c);
    }
    if s.contains(c) {
        assert(before(s, c) + seq![c] + after(s, c) =~= s);
    } else {
        assert(before(s, c) =~= s);
    }
}

/// Trimming takes nothing but the run of a character at the end, and all of that.
pub proof fn law_trim_end(s: Seq<char>, c: char)
    ensures
        trim_end(s, c).len() <= s.len(),
        s.take(trim_end(s, c).len() as int) == trim_end(s, c),
        forall|i: int| trim_end(s, c).len() <= i < s.len() ==> s[i] == c,
        trim_end(s, c).len() > 0 ==> s[trim_end(s, c).len() - 1] != c,
    decreases s.len(),
{
    if s.len() > 0 && s.last() == c {
        let shorter = s.drop_last();
        law_trim_end(shorter, c);
        let n = trim_end(s, c).len() as int;
        assert(s.take(n) =~= shorter.take(n));
        assert forall|i: int| n <= i < s.len() implies s[i] == c by {
            if i < shorter.len() {
                assert(shorter[i] == s[i]);
            }
        }
    } else {
        assert(s.take(s.len() as int) =~= s);
    }
}

/// Trimming takes nothing but the run of a character at the start, and all of that.
pub proof fn law_trim_start(s: Seq<char>, c: char)
    ensures
        trim_start(s, c).len() <= s.len(),
        s.skip(s.len() - trim_start(s, c).len()) == trim_start(s, c),
        forall|i: int| 0 <= i < s.len() - trim_start(s, c).len() ==> s[i] == c,
        trim_start(s, c).len() > 0 ==> s[s.len() - trim_start(s, c).len()] != c,
    decreases s.len(),
{
    if s.len() > 0 && s[0] == c {
        let shorter = s.drop_first();
        law_trim_start(shorter, c);
        let n = s.len() - trim_start(s, c).len();
        assert(s.skip(n) =~= shorter.skip(n - 1));
        assert forall|i: int| 0 <= i < n implies s[i] == c by {
            if i > 0 {
                assert(shorter[i - 1] == s[i]);
            }
        }
        if trim_start(s, c).len() > 0 {
            assert(shorter[n - 1] == s[n]);
        }
    } else {
        assert(s.skip(0) =~= s);
    }
}

/// A number is written digit by digit, the last one for the remainder by ten.
pub proof fn law_decimal_digits(n: nat, d: nat)
    requires
        d < 10,
    ensures
        decimal_text(d) == seq!["0123456789"@[d as int]],
        n > 0 ==> decimal_text(n * 10 + d) == decimal_text(n) + seq!["0123456789"@[d as int]],
{
    reveal_strlit("0123456789");
    assert(digit_char(d) == "0123456789"@[d as int]);
    if n > 0 {
        let m = n * 10 + d;
        assert(m / 10 == n && m % 10 == d);
        assert(decimal_text(m) =~= decimal_text(n) + seq!["0123456789"@[d as int]]);
    }
}

proof fn lemma_no_blank(s: Seq<char>)
    requires
        !s.contains('{'),
    ensures
        blank_position(s) == s.len(),
    decreases s.len(),
{
    if s.len() >= 2 {
        let shorter = s.drop_first();
        assert(s[0] != '{');
        assert(!shorter.contains('{')) by {
            if shorter.contains('{') {
                let i = choose|i: int| 0 <= i < shorter.len() && shorter[i] == '{';
                assert(s[i + 1] == '{');
            }
        }
        lemma_no_blank(shorter);
    }
}

/// Each pair of braces is replaced by the next filling. What stands around them stays, and so
/// does all that follows the last filling.
pub proof fn law_fill(
    front: Seq<char>,
    rest: Seq<char>,
    filling: Seq<char>,
    fillings: Seq<Seq<char>>,
)
    requires
        !front.contains('{'),
    ensures
        fill(front + "{}"@ + rest, seq![filling] + fillings) == front + filling + fill(
            rest,
            fillings,
        ),
        fill(front, fillings) == front,
        fill(rest, Seq::empty()) == rest,
{
    lemma_no_blank(front);
    let all = seq![filling] + fillings;
    lemma_fill(front, rest, all);
    assert(all.drop_first() =~= fillings);
}

} // verus!
