//! Versions, as they are written in tags.

use crate::config::UpdateType;
use crate::structs::status::{Status, StatusView};
use crate::text::{
    blank_position, chars_of, decimal_text, fill, fill_format, lemma_fill, views, write_decimal,
};
use vstd::prelude::*;

verus! {

/// A version with one to three numbers.
#[derive(Debug, Clone, Copy, PartialEq, Eq, Structural)]
pub struct Version {
    pub major: u32,
    pub minor: Option<u32>,
    pub patch: Option<u32>,
}

/// Whether `c` is a decimal digit.
pub open spec fn is_digit(c: char) -> bool {
    '0' <= c <= '9'
}

/// The number that a run of digits writes.
pub open spec fn decimal(digits: Seq<char>) -> nat
    decreases digits.len(),
{
    if digits.len() == 0 {
        0
    } else {
        decimal(digits.drop_last()) * 10 + (digits.last() as int - '0' as int) as nat
    }
}

/// The end of the run of digits that starts at `i`.
pub open spec fn digits_end(s: Seq<char>, i: int) -> int
    decreases s.len() - i,
{
    if 0 <= i < s.len() && is_digit(s[i]) {
        digits_end(s, i + 1)
    } else {
        i
    }
}

/// The end of the number that starts at `i`: a single zero, or digits that do not start with
/// one. It is `i` where no number starts.
pub open spec fn number_end(s: Seq<char>, i: int) -> int {
    if 0 <= i < s.len() && s[i] == '0' {
        i + 1
    } else {
        digits_end(s, i)
    }
}

/// The end of the dot and number that start at `i`, if they do.
pub open spec fn component_end(s: Seq<char>, i: int) -> Option<int> {
    if 0 <= i < s.len() && s[i] == '.' && number_end(s, i + 1) > i + 1 {
        Some(number_end(s, i + 1))
    } else {
        None
    }
}

/// Where a version stands in a tag.
pub struct VersionSpan {
    /// Where the major number starts.
    pub start: int,
    /// Where it ends.
    pub major_end: int,
    /// Where the minor number ends; it starts behind the dot after the major number.
    pub minor_end: Option<int>,
    /// Where the patch number ends; it starts behind the dot after the minor number.
    pub patch_end: Option<int>,
}

impl VersionSpan {
    /// How many numbers there are.
    pub open spec fn count(self) -> int {
        if self.patch_end is Some {
            3
        } else if self.minor_end is Some {
            2
        } else {
            1
        }
    }

    /// Where the last number ends.
    pub open spec fn end(self) -> int {
        match (self.minor_end, self.patch_end) {
            (_, Some(e)) => e,
            (Some(e), None) => e,
            (None, None) => self.major_end,
        }
    }
}

/// The longest version that starts at `i`, where a number starts.
pub open spec fn span_at(s: Seq<char>, i: int) -> VersionSpan {
    let major_end = number_end(s, i);
    let minor_end = component_end(s, major_end);
    VersionSpan {
        start: i,
        major_end,
        minor_end,
        patch_end: match minor_end {
            Some(e) => component_end(s, e),
            None => None,
        },
    }
}

/// Of `best` and the versions found from `i` on, none of which overlap, the one with the most
/// numbers; the first of them on a tie.
pub open spec fn best_span(s: Seq<char>, i: int, best: Option<VersionSpan>) -> Option<VersionSpan>
    decreases s.len() - i,
    when 0 <= i
    via best_span_decreases
{
    if i >= s.len() {
        best
    } else if number_end(s, i) > i {
        let found = span_at(s, i);
        best_span(
            s,
            found.end(),
            match best {
                Some(b) if b.count() >= found.count() => best,
                _ => Some(found),
            },
        )
    } else {
        best_span(s, i + 1, best)
    }
}

#[via_fn]
proof fn best_span_decreases(s: Seq<char>, i: int, best: Option<VersionSpan>) {
    if i < s.len() && number_end(s, i) > i {
        lemma_span(s, i);
    }
}

/// The version that `span` marks in `s`; nothing if a number does not fit.
pub open spec fn spanned_version(s: Seq<char>, span: VersionSpan) -> Option<Version> {
    let major = decimal(s.subrange(span.start, span.major_end));
    let minor = match span.minor_end {
        Some(e) => Some(decimal(s.subrange(span.major_end + 1, e))),
        None => None,
    };
    let patch = match (span.minor_end, span.patch_end) {
        (Some(m), Some(e)) => Some(decimal(s.subrange(m + 1, e))),
        _ => None,
    };
    if major <= u32::MAX && (minor matches Some(n) ==> n <= u32::MAX) && (patch matches Some(n)
        ==> n <= u32::MAX) {
        Some(
            Version {
                major: major as u32,
                minor: match minor {
                    Some(n) => Some(n as u32),
                    None => None,
                },
                patch: match patch {
                    Some(n) => Some(n as u32),
                    None => None,
                },
            },
        )
    } else {
        None
    }
}

/// `s` with `{}` in place of each number that `span` marks.
pub open spec fn spanned_format(s: Seq<char>, span: VersionSpan) -> Seq<char> {
    s.take(span.start) + "{}"@ + (if span.minor_end is Some {
        ".{}"@
    } else {
        Seq::empty()
    }) + (if span.patch_end is Some {
        ".{}"@
    } else {
        Seq::empty()
    }) + s.skip(span.end())
}

/// The version that a tag names and the tag's format, if there is one.
pub open spec fn tag_version(tag: Seq<char>) -> Option<(Version, Seq<char>)> {
    match best_span(tag, 0, None) {
        Some(span) => match spanned_version(tag, span) {
            Some(version) => Some((version, spanned_format(tag, span))),
            None => None,
        },
        None => None,
    }
}

proof fn lemma_digits_end(s: Seq<char>, i: int)
    requires
        0 <= i <= s.len(),
    ensures
        i <= digits_end(s, i) <= s.len(),
        forall|j: int| i <= j < digits_end(s, i) ==> is_digit(s[j]),
        digits_end(s, i) < s.len() ==> !is_digit(s[digits_end(s, i)]),
    decreases s.len() - i,
{
    if i < s.len() && is_digit(s[i]) {
        lemma_digits_end(s, i + 1);
    }
}

proof fn lemma_number_end(s: Seq<char>, i: int)
    requires
        0 <= i <= s.len(),
    ensures
        i <= number_end(s, i) <= s.len(),
        forall|j: int| i <= j < number_end(s, i) ==> is_digit(s[j]),
{
    lemma_digits_end(s, i);
}

proof fn lemma_component_end(s: Seq<char>, i: int)
    requires
        0 <= i <= s.len(),
    ensures
        component_end(s, i) matches Some(e) ==> i + 1 < e <= s.len() && forall|j: int|
            i + 1 <= j < e ==> is_digit(s[j]),
{
    if i < s.len() {
        lemma_number_end(s, i + 1);
    }
}

/// The numbers of a version follow one another inside the text.
proof fn lemma_span(s: Seq<char>, i: int)
    requires
        0 <= i < s.len(),
        number_end(s, i) > i,
    ensures
        ({
            let span = span_at(s, i);
            &&& i < span.major_end <= span.end() <= s.len()
            &&& forall|j: int| i <= j < span.major_end ==> is_digit(s[j])
            &&& span.minor_end matches Some(m) ==> {
                &&& span.major_end + 1 < m <= s.len()
                &&& s[span.major_end] == '.'
                &&& forall|j: int| span.major_end + 1 <= j < m ==> is_digit(s[j])
            }
            &&& span.patch_end matches Some(e) ==> {
                &&& span.minor_end is Some
                &&& span.minor_end->0 + 1 < e <= s.len()
                &&& s[span.minor_end->0] == '.'
                &&& forall|j: int| span.minor_end->0 + 1 <= j < e ==> is_digit(s[j])
            }
        }),
{
    lemma_number_end(s, i);
    let major_end = number_end(s, i);
    lemma_component_end(s, major_end);
    if let Some(m) = component_end(s, major_end) {
        lemma_component_end(s, m);
    }
}

/// More digits do not make a number smaller.
proof fn lemma_decimal_grows(s: Seq<char>, from: int, mid: int, to: int)
    requires
        0 <= from <= mid <= to <= s.len(),
        forall|j: int| from <= j < to ==> is_digit(s[j]),
    ensures
        decimal(s.subrange(from, mid)) <= decimal(s.subrange(from, to)),
    decreases to - mid,
{
    if mid < to {
        lemma_decimal_grows(s, from, mid, to - 1);
        assert(s.subrange(from, to).drop_last() =~= s.subrange(from, to - 1));
    }
}

/// Where a version stands in a tag.
struct Span {
    start: usize,
    major_end: usize,
    minor_end: Option<usize>,
    patch_end: Option<usize>,
}

impl View for Span {
    type V = VersionSpan;

    closed spec fn view(&self) -> VersionSpan {
        VersionSpan {
            start: self.start as int,
            major_end: self.major_end as int,
            minor_end: match self.minor_end {
                Some(e) => Some(e as int),
                None => None,
            },
            patch_end: match self.patch_end {
                Some(e) => Some(e as int),
                None => None,
            },
        }
    }
}

impl Span {
    fn count(&self) -> (r: usize)
        ensures
            r == self@.count(),
    {
        if self.patch_end.is_some() {
            3
        } else if self.minor_end.is_some() {
            2
        } else {
            1
        }
    }

    fn end(&self) -> (r: usize)
        ensures
            r == self@.end(),
    {
        match (self.minor_end, self.patch_end) {
            (_, Some(e)) => e,
            (Some(e), None) => e,
            (None, None) => self.major_end,
        }
    }
}

fn scan_number(chars: &Vec<char>, i: usize) -> (r: usize)
    requires
        i <= chars@.len(),
    ensures
        r == number_end(chars@, i as int),
        i <= r <= chars@.len(),
{
    if i < chars.len() && chars[i] == '0' {
        return i + 1;
    }
    let mut k: usize = i;
    while k < chars.len() && '0' <= chars[k] && chars[k] <= '9'
        invariant
            i <= k <= chars@.len(),
            digits_end(chars@, i as int) == digits_end(chars@, k as int),
        decreases chars@.len() - k,
    {
        k += 1;
    }
    k
}

fn scan_component(chars: &Vec<char>, i: usize) -> (r: Option<usize>)
    requires
        i <= chars@.len(),
    ensures
        match r {
            Some(e) => component_end(chars@, i as int) == Some(e as int) && e <= chars@.len(),
            None => component_end(chars@, i as int) is None,
        },
{
    if i < chars.len() && chars[i] == '.' {
        let e = scan_number(chars, i + 1);
        if e > i + 1 {
            return Some(e);
        }
    }
    None
}

fn scan_span(chars: &Vec<char>, i: usize) -> (r: Span)
    requires
        i < chars@.len(),
        number_end(chars@, i as int) > i,
    ensures
        r@ == span_at(chars@, i as int),
{
    let major_end = scan_number(chars, i);
    let minor_end = scan_component(chars, major_end);
    let patch_end = match minor_end {
        Some(e) => scan_component(chars, e),
        None => None,
    };
    Span { start: i, major_end, minor_end, patch_end }
}

fn read_number(chars: &Vec<char>, from: usize, to: usize) -> (r: Option<u32>)
    requires
        from <= to <= chars@.len(),
        forall|j: int| from <= j < to ==> is_digit(chars@[j]),
    ensures
        match r {
            Some(n) => decimal(chars@.subrange(from as int, to as int)) == n,
            None => decimal(chars@.subrange(from as int, to as int)) > u32::MAX,
        },
{
    let mut value: u32 = 0;
    let mut k: usize = from;
    assert(chars@.subrange(from as int, from as int) =~= Seq::<char>::empty());
    while k < to
        invariant
            from <= k <= to <= chars@.len(),
            forall|j: int| from <= j < to ==> is_digit(chars@[j]),
            decimal(chars@.subrange(from as int, k as int)) == value,
        decreases to - k,
    {
        let digit: u64 = chars[k] as u64 - '0' as u64;
        let next: u64 = value as u64 * 10 + digit;
        proof {
            let longer = chars@.subrange(from as int, k + 1);
            assert(longer.drop_last() =~= chars@.subrange(from as int, k as int));
            assert(longer.last() == chars@[k as int]);
            lemma_decimal_grows(chars@, from as int, k + 1, to as int);
        }
        if next > u32::MAX as u64 {
            return None;
        }
        value = next as u32;
        k += 1;
    }
    Some(value)
}

fn read_version(chars: &Vec<char>, span: &Span) -> (r: Option<Version>)
    requires
        span.start < chars@.len(),
        number_end(chars@, span.start as int) > span.start,
        span@ == span_at(chars@, span.start as int),
    ensures
        r == spanned_version(chars@, span@),
{
    proof {
        lemma_span(chars@, span.start as int);
    }
    let major = match read_number(chars, span.start, span.major_end) {
        Some(n) => n,
        None => {
            return None;
        },
    };
    let minor = match span.minor_end {
        Some(e) => match read_number(chars, span.major_end + 1, e) {
            Some(n) => Some(n),
            None => {
                return None;
            },
        },
        None => None,
    };
    let patch = match (span.minor_end, span.patch_end) {
        (Some(m), Some(e)) => match read_number(chars, m + 1, e) {
            Some(n) => Some(n),
            None => {
                return None;
            },
        },
        _ => None,
    };
    Some(Version { major, minor, patch })
}

impl Version {
    /// Finds the version in a tag: the numbers that are joined by dots, at most three, taken
    /// where most of them stand. The text beside the version is the tag with `{}` in place of
    /// each number.
    pub fn from_tag(tag: &str) -> (r: Option<(Version, String)>)
        ensures
            match r {
                Some((version, format)) => tag_version(tag@) == Some((version, format@)),
                None => tag_version(tag@) is None,
            },
    {
        let chars = chars_of(tag);
        let mut best: Option<Span> = None;
        let mut i: usize = 0;
        while i < chars.len()
            invariant
                chars@ == tag@,
                0 <= i <= chars@.len(),
                best_span(tag@, 0, None) == best_span(
                    tag@,
                    i as int,
                    match best {
                        Some(b) => Some(b@),
                        None => None,
                    },
                ),
                best matches Some(b) ==> {
                    &&& b.start < chars@.len()
                    &&& number_end(chars@, b.start as int) > b.start
                    &&& b@ == span_at(chars@, b.start as int)
                },
            decreases chars@.len() - i,
        {
            if scan_number(&chars, i) > i {
                let found = scan_span(&chars, i);
                proof {
                    lemma_span(chars@, i as int);
                }
                i = found.end();
                let keep = match &best {
                    Some(b) => b.count() >= found.count(),
                    None => false,
                };
                if !keep {
                    best = Some(found);
                }
            } else {
                i += 1;
            }
        }
        match best {
            Some(span) => {
                proof {
                    lemma_span(chars@, span.start as int);
                }
                match read_version(&chars, &span) {
                    Some(version) => {
                        let mut format = tag.substring_char(0, span.start).to_owned();
                        format.append("{}");
                        if span.minor_end.is_some() {
                            format.append(".{}");
                        }
                        if span.patch_end.is_some() {
                            format.append(".{}");
                        }
                        format.append(tag.substring_char(span.end(), chars.len()));
                        assert(format@ =~= spanned_format(tag@, span@));
                        Some((version, format))
                    },
                    None => None,
                }
            },
            None => None,
        }
    }
}

/// A part of a version as a number; an absent part comes before every number.
pub open spec fn rank(part: Option<u32>) -> int {
    match part {
        Some(n) => n as int,
        None => -1,
    }
}

impl Version {
    /// The order of versions: by the major, then the minor, then the patch number.
    pub open spec fn le(self, other: Version) -> bool {
        ||| self.major < other.major
        ||| self.major == other.major && rank(self.minor) < rank(other.minor)
        ||| self.major == other.major && rank(self.minor) == rank(other.minor) && rank(self.patch)
            <= rank(other.patch)
    }

    /// Whether both versions have the same number of parts.
    pub open spec fn same_shape(self, other: Version) -> bool {
        (self.minor is Some <==> other.minor is Some) && (self.patch is Some
            <==> other.patch is Some)
    }

    /// Whether a version is still of interest next to `base` when updates of the kind
    /// `ignored` are not.
    pub open spec fn allowed(self, base: Version, ignored: UpdateType) -> bool {
        match ignored {
            UpdateType::Off => true,
            UpdateType::Major => self.major == base.major,
            UpdateType::Minor => self.major == base.major && self.minor == base.minor,
            UpdateType::Patch => self == base,
        }
    }

    /// The version as text.
    pub open spec fn to_text(self) -> Seq<char> {
        decimal_text(self.major as nat) + (match self.minor {
            Some(n) => "."@ + decimal_text(n as nat),
            None => Seq::empty(),
        }) + (match self.patch {
            Some(n) => "."@ + decimal_text(n as nat),
            None => Seq::empty(),
        })
    }

    /// The numbers of the version as text.
    pub open spec fn numbers(self) -> Seq<Seq<char>> {
        seq![decimal_text(self.major as nat)] + (match self.minor {
            Some(n) => seq![decimal_text(n as nat)],
            None => Seq::empty(),
        }) + (match self.patch {
            Some(n) => seq![decimal_text(n as nat)],
            None => Seq::empty(),
        })
    }

    /// What the newest remote version says of an image of version `current`.
    pub open spec fn status_against(self, current: Version) -> StatusView {
        if !current.le(self) {
            StatusView::Unknown("Tag "@ + current.to_text() + " does not exist"@)
        } else if self.major != current.major {
            StatusView::UpdateMajor
        } else if self.minor != current.minor {
            StatusView::UpdateMinor
        } else if self.patch != current.patch {
            StatusView::UpdatePatch
        } else {
            StatusView::UpToDate
        }
    }

    /// Whether this version comes no later than `other`.
    pub fn at_most(&self, other: &Version) -> (r: bool)
        ensures
            r == self.le(*other),
    {
        if self.major != other.major {
            self.major < other.major
        } else if self.minor != other.minor {
            part_below(self.minor, other.minor)
        } else {
            self.patch == other.patch || part_below(self.patch, other.patch)
        }
    }

    /// Whether both versions have the same number of parts.
    pub fn matches_shape(&self, other: &Version) -> (r: bool)
        ensures
            r == self.same_shape(*other),
    {
        self.minor.is_some() == other.minor.is_some() && self.patch.is_some()
            == other.patch.is_some()
    }

    /// Whether the version is still of interest next to `base`.
    pub fn is_allowed(&self, base: &Version, ignored: UpdateType) -> (r: bool)
        ensures
            r == self.allowed(*base, ignored),
    {
        match ignored {
            UpdateType::Off => true,
            UpdateType::Major => self.major == base.major,
            UpdateType::Minor => self.major == base.major && self.minor == base.minor,
            UpdateType::Patch => self.major == base.major && self.minor == base.minor && self.patch
                == base.patch,
        }
    }

    /// Writes the version.
    pub fn write(&self) -> (r: String)
        ensures
            r@ == self.to_text(),
    {
        let mut r = write_decimal(self.major);
        if let Some(n) = self.minor {
            r.append(".");
            r.append(write_decimal(n).as_str());
        }
        if let Some(n) = self.patch {
            r.append(".");
            r.append(write_decimal(n).as_str());
        }
        assert(r@ =~= self.to_text());
        r
    }

    /// Writes the version into a tag format.
    pub fn write_tag(&self, format: &str) -> (r: String)
        ensures
            r@ == fill(format@, self.numbers()),
    {
        let mut numbers: Vec<String> = Vec::new();
        numbers.push(write_decimal(self.major));
        if let Some(n) = self.minor {
            numbers.push(write_decimal(n));
        }
        if let Some(n) = self.patch {
            numbers.push(write_decimal(n));
        }
        assert(views(numbers@) =~= self.numbers());
        fill_format(format, &numbers)
    }

    /// What this version, the newest remote one, says of an image of version `current`.
    pub fn to_status(&self, current: &Version) -> (r: Status)
        ensures
            r@ == self.status_against(*current),
    {
        if !current.at_most(self) {
            let mut message = "Tag ".to_owned();
            message.append(current.write().as_str());
            message.append(" does not exist");
            Status::Unknown(message)
        } else if self.major != current.major {
            Status::UpdateMajor
        } else if self.minor != current.minor {
            Status::UpdateMinor
        } else if self.patch != current.patch {
            Status::UpdatePatch
        } else {
            Status::UpToDate
        }
    }
}

fn part_below(a: Option<u32>, b: Option<u32>) -> (r: bool)
    ensures
        r == (rank(a) < rank(b)),
{
    match (a, b) {
        (Some(a), Some(b)) => a < b,
        (None, Some(_)) => true,
        _ => false,
    }
}

/// Whether `v` is the newest of `versions`.
pub open spec fn is_newest(versions: Seq<Version>, v: Version) -> bool {
    &&& versions.contains(v)
    &&& forall|i: int| 0 <= i < versions.len() ==> (#[trigger] versions[i]).le(v)
}

/// The newest of some versions.
pub fn newest(versions: &Vec<Version>) -> (r: Option<Version>)
    ensures
        match r {
            Some(v) => is_newest(versions@, v),
            None => versions@.len() == 0,
        },
{
    if versions.len() == 0 {
        return None;
    }
    let mut best: Version = versions[0];
    let mut i: usize = 1;
    while i < versions.len()
        invariant
            1 <= i <= versions@.len(),
            versions@.contains(best),
            forall|j: int| 0 <= j < i ==> (#[trigger] versions@[j]).le(best),
        decreases versions@.len() - i,
    {
        if best.at_most(&versions[i]) {
            best = versions[i];
        }
        i += 1;
    }
    Some(best)
}

/// Versions are totally ordered.
pub proof fn law_version_order(a: Version, b: Version, c: Version)
    ensures
        a.le(a),
        a.le(b) || b.le(a),
        a.le(b) && b.le(a) ==> a == b,
        a.le(b) && b.le(c) ==> a.le(c),
{
}

/// There is at most one newest version.
pub proof fn law_newest_is_unique(versions: Seq<Version>, a: Version, b: Version)
    requires
        is_newest(versions, a),
        is_newest(versions, b),
    ensures
        a == b,
{
}

/// Whether a span is the version that a search finds at its start.
spec fn found_span(s: Seq<char>, span: VersionSpan) -> bool {
    &&& 0 <= span.start < s.len()
    &&& number_end(s, span.start) > span.start
    &&& span == span_at(s, span.start)
}

proof fn lemma_best_span(s: Seq<char>, i: int, best: Option<VersionSpan>)
    requires
        0 <= i,
        best matches Some(b) ==> found_span(s, b),
    ensures
        best_span(s, i, best) matches Some(b) ==> found_span(s, b),
    decreases s.len() - i,
{
    if i < s.len() {
        if number_end(s, i) > i {
            lemma_span(s, i);
            let found = span_at(s, i);
            lemma_best_span(
                s,
                found.end(),
                match best {
                    Some(b) if b.count() >= found.count() => best,
                    _ => Some(found),
                },
            );
        } else {
            lemma_best_span(s, i + 1, best);
        }
    }
}

/// A number without leading zeros is written as it was read.
proof fn lemma_decimal_text(digits: Seq<char>)
    requires
        digits.len() > 0,
        forall|j: int| 0 <= j < digits.len() ==> is_digit(#[trigger] digits[j]),
        digits.len() > 1 ==> digits[0] != '0',
    ensures
        decimal_text(decimal(digits)) == digits,
        digits[0] != '0' ==> decimal(digits) > 0,
    decreases digits.len(),
{
    let shorter = digits.drop_last();
    let digit = (digits.last() as int - '0' as int) as nat;
    assert(is_digit(digits[digits.len() - 1]));
    if digits.len() == 1 {
        assert(decimal(shorter) == 0);
        assert(decimal_text(decimal(digits)) =~= digits);
    } else {
        assert forall|j: int| 0 <= j < shorter.len() implies is_digit(#[trigger] shorter[j]) by {
            assert(shorter[j] == digits[j]);
        }
        assert(shorter[0] == digits[0]);
        lemma_decimal_text(shorter);
        let n = decimal(digits);
        assert(n / 10 == decimal(shorter) && n % 10 == digit);
        assert(decimal_text(n) =~= digits);
    }
}

proof fn lemma_number_text(s: Seq<char>, i: int)
    requires
        0 <= i < s.len(),
        number_end(s, i) > i,
    ensures
        decimal_text(decimal(s.subrange(i, number_end(s, i)))) == s.subrange(i, number_end(s, i)),
{
    lemma_number_end(s, i);
    lemma_decimal_text(s.subrange(i, number_end(s, i)));
}

/// What a format is filled to: `front`, the numbers with dots between them, and `back`.
#[verifier::rlimit(50)]
proof fn lemma_fill_numbers(front: Seq<char>, back: Seq<char>, numbers: Seq<Seq<char>>)
    requires
        blank_position(front) == front.len(),
        1 <= numbers.len() <= 3,
    ensures
        numbers.len() == 1 ==> fill(front + "{}"@ + back, numbers) == front + numbers[0] + back,
        numbers.len() == 2 ==> fill(front + "{}"@ + (".{}"@ + back), numbers) == front + numbers[0]
            + ("."@ + numbers[1] + back),
        numbers.len() == 3 ==> fill(front + "{}"@ + (".{}"@ + (".{}"@ + back)), numbers) == front
            + numbers[0] + ("."@ + numbers[1] + ("."@ + numbers[2] + back)),
    decreases numbers.len(),
{
    reveal_strlit(".{}");
    reveal_strlit(".");
    reveal_strlit("{}");
    let rest = numbers.drop_first();
    if numbers.len() == 1 {
        lemma_fill(front, back, numbers);
        assert(rest.len() == 0);
        assert(fill(back, rest) == back);
    } else {
        assert(blank_position("."@) == 1);
        lemma_fill_numbers("."@, back, rest);
        assert(rest[0] == numbers[1]);
        if numbers.len() == 2 {
            lemma_fill(front, ".{}"@ + back, numbers);
            assert("."@ + "{}"@ + back =~= ".{}"@ + back);
        } else {
            assert(rest[1] == numbers[2]);
            lemma_fill(front, ".{}"@ + (".{}"@ + back), numbers);
            assert("."@ + "{}"@ + (".{}"@ + back) =~= ".{}"@ + (".{}"@ + back));
        }
    }
}

/// The text of a version's numbers, as they stand in the tag.
spec fn number_texts(s: Seq<char>, span: VersionSpan) -> Seq<Seq<char>> {
    let major = s.subrange(span.start, span.major_end);
    match (span.minor_end, span.patch_end) {
        (Some(m), Some(p)) => seq![
            major,
            s.subrange(span.major_end + 1, m),
            s.subrange(m + 1, p),
        ],
        (Some(m), None) => seq![major, s.subrange(span.major_end + 1, m)],
        (None, _) => seq![major],
    }
}

proof fn lemma_number_texts(s: Seq<char>, span: VersionSpan, version: Version)
    requires
        found_span(s, span),
        spanned_version(s, span) == Some(version),
    ensures
        version.numbers() == number_texts(s, span),
{
    lemma_span(s, span.start);
    lemma_number_text(s, span.start);
    if let Some(m) = span.minor_end {
        lemma_number_text(s, span.major_end + 1);
        if span.patch_end is Some {
            lemma_number_text(s, m + 1);
        }
    }
    assert(version.numbers() =~= number_texts(s, span));
}

/// A tag is made up of what stands around its version, the numbers, and dots between them.
#[verifier::rlimit(50)]
proof fn lemma_tag_pieces(tag: Seq<char>, span: VersionSpan)
    requires
        found_span(tag, span),
    ensures
        ({
            let front = tag.take(span.start);
            let back = tag.skip(span.end());
            let numbers = number_texts(tag, span);
            &&& numbers.len() == 1 ==> front + numbers[0] + back == tag
            &&& numbers.len() == 2 ==> front + numbers[0] + ("."@ + numbers[1] + back) == tag
            &&& numbers.len() == 3 ==> front + numbers[0] + ("."@ + numbers[1] + ("."@ + numbers[2]
                + back)) == tag
        }),
{
    lemma_span(tag, span.start);
    reveal_strlit(".");
    let front = tag.take(span.start);
    let back = tag.skip(span.end());
    let numbers = number_texts(tag, span);
    if numbers.len() == 1 {
        assert(front + numbers[0] + back =~= tag);
    } else if numbers.len() == 2 {
        assert(front + numbers[0] + ("."@ + numbers[1] + back) =~= tag);
    } else {
        assert(front + numbers[0] + ("."@ + numbers[1] + ("."@ + numbers[2] + back)) =~= tag);
    }
}

/// Whether no `{}` stands in front of a tag's version. Where one does, it would be taken for
/// the place of a number.
pub open spec fn unambiguous(tag: Seq<char>) -> bool {
    best_span(tag, 0, None) matches Some(span) ==> blank_position(tag.take(span.start))
        == span.start
}

/// The format of a tag, by the number of numbers in it.
proof fn lemma_format_pieces(tag: Seq<char>, span: VersionSpan)
    ensures
        ({
            let front = tag.take(span.start);
            let back = tag.skip(span.end());
            let format = spanned_format(tag, span);
            &&& span.minor_end is None && span.patch_end is None ==> format == front + "{}"@ + back
            &&& span.minor_end is Some && span.patch_end is None ==> format == front + "{}"@ + (
            ".{}"@ + back)
            &&& span.minor_end is Some && span.patch_end is Some ==> format == front + "{}"@ + (
            ".{}"@ + (".{}"@ + back))
        }),
{
    let front = tag.take(span.start);
    let back = tag.skip(span.end());
    let format = spanned_format(tag, span);
    if span.minor_end is None && span.patch_end is None {
        assert(format =~= front + "{}"@ + back);
    } else if span.minor_end is Some && span.patch_end is None {
        assert(format =~= front + "{}"@ + (".{}"@ + back));
    } else if span.minor_end is Some {
        assert(format =~= front + "{}"@ + (".{}"@ + (".{}"@ + back)));
    }
}

#[verifier::rlimit(50)]
proof fn lemma_filled_span(tag: Seq<char>, span: VersionSpan, version: Version)
    requires
        found_span(tag, span),
        spanned_version(tag, span) == Some(version),
        blank_position(tag.take(span.start)) == span.start,
    ensures
        fill(spanned_format(tag, span), version.numbers()) == tag,
{
    lemma_number_texts(tag, span, version);
    lemma_tag_pieces(tag, span);
    lemma_format_pieces(tag, span);
    lemma_fill_numbers(tag.take(span.start), tag.skip(span.end()), number_texts(tag, span));
}

/// A tag's format, filled with the tag's version, is the tag.
pub proof fn law_format_and_version_make_the_tag(
    tag: Seq<char>,
    version: Version,
    format: Seq<char>,
)
    requires
        tag_version(tag) == Some((version, format)),
        unambiguous(tag),
    ensures
        fill(format, version.numbers()) == tag,
{
    lemma_best_span(tag, 0, None);
    lemma_filled_span(tag, best_span(tag, 0, None)->0, version);
}

/// Versions are compared by their major, then by their minor, then by their patch number. One
/// that lacks a number comes before those that have it.
pub proof fn law_versions_are_ordered_by_their_numbers(a: Version, b: Version)
    ensures
        a.major < b.major ==> a.le(b) && !b.le(a),
        a.major == b.major ==> match (a.minor, b.minor) {
            (Some(x), Some(y)) => x < y ==> a.le(b) && !b.le(a),
            (None, Some(_)) => a.le(b) && !b.le(a),
            _ => true,
        },
        a.major == b.major && a.minor == b.minor ==> match (a.patch, b.patch) {
            (Some(x), Some(y)) => x < y ==> a.le(b) && !b.le(a),
            (None, Some(_)) => a.le(b) && !b.le(a),
            _ => true,
        },
        a == b ==> a.le(b),
{
}

/// The newest version is one of those that were found, and none of them has a larger major
/// number, or the same and a larger minor number, or the same two and a larger patch number.
pub proof fn law_newest_version(versions: Seq<Version>, v: Version, i: int)
    requires
        is_newest(versions, v),
        0 <= i < versions.len(),
    ensures
        versions.contains(v),
        versions[i].major <= v.major,
        versions[i].major == v.major ==> match (versions[i].minor, v.minor) {
            (Some(x), Some(y)) => x <= y,
            (Some(_), None) => false,
            _ => true,
        },
        versions[i].major == v.major && versions[i].minor == v.minor ==> match (
            versions[i].patch,
            v.patch,
        ) {
            (Some(x), Some(y)) => x <= y,
            (Some(_), None) => false,
            _ => true,
        },
{
    assert(versions[i].le(v));
}

/// The status names the first number that is larger. A newest version that is older than the
/// image's own means that the image's own is gone.
pub proof fn law_status_names_the_kind_of_update(latest: Version, current: Version)
    ensures
        latest == current ==> latest.status_against(current) is UpToDate,
        latest.major > current.major ==> latest.status_against(current) is UpdateMajor,
        latest.major < current.major ==> latest.status_against(current) is Unknown,
        latest.major == current.major ==> match (latest.minor, current.minor) {
            (Some(x), Some(y)) => {
                &&& x > y ==> latest.status_against(current) is UpdateMinor
                &&& x < y ==> latest.status_against(current) is Unknown
            },
            _ => true,
        },
        latest.major == current.major && latest.minor == current.minor ==> match (
            latest.patch,
            current.patch,
        ) {
            (Some(x), Some(y)) => {
                &&& x > y ==> latest.status_against(current) is UpdatePatch
                &&& x < y ==> latest.status_against(current) is Unknown
            },
            _ => true,
        },
        latest.status_against(current) matches StatusView::Unknown(message) ==> message
            == "Tag "@ + current.to_text() + " does not exist"@,
        !(latest.status_against(current) is UpdateAvailable),
{
}

/// Each kind of updates to ignore leaves only what the kind before it leaves.
pub proof fn law_ignored_kinds_are_nested(v: Version, base: Version)
    ensures
        v.allowed(base, UpdateType::Off),
        v.allowed(base, UpdateType::Major) <==> v.major == base.major,
        v.allowed(base, UpdateType::Minor) <==> v.major == base.major && v.minor == base.minor,
        v.allowed(base, UpdateType::Patch) <==> v.major == base.major && v.minor == base.minor
            && v.patch == base.patch,
        v.allowed(base, UpdateType::Patch) ==> v.allowed(base, UpdateType::Minor),
        v.allowed(base, UpdateType::Minor) ==> v.allowed(base, UpdateType::Major),
        v.allowed(base, UpdateType::Major) ==> !(v.status_against(base) is UpdateMajor),
        v.allowed(base, UpdateType::Minor) ==> !(v.status_against(base) is UpdateMajor)
            && !(v.status_against(base) is UpdateMinor),
        v.allowed(base, UpdateType::Patch) ==> v.status_against(base) is UpToDate,
{
}

/// A text without decimal digits.
pub open spec fn digit_free(s: Seq<char>) -> bool {
    forall|i: int| 0 <= i < s.len() ==> !('0' <= (#[trigger] s[i]) && s[i] <= '9')
}

/// How many numbers a version has.
pub open spec fn number_count(v: Version) -> int {
    match (v.minor, v.patch) {
        (Some(_), Some(_)) => 3,
        (Some(_), None) => 2,
        (None, _) => 1,
    }
}

/// A pair of braces for each number of a version, with dots between them.
pub open spec fn blanks(v: Version) -> Seq<char> {
    match (v.minor, v.patch) {
        (Some(_), Some(_)) => "{}.{}.{}"@,
        (Some(_), None) => "{}.{}"@,
        (None, _) => "{}"@,
    }
}

/// What is written of a number is read as that number.
proof fn lemma_decimal_round_trip(n: nat)
    ensures
        decimal_text(n).len() > 0,
        forall|j: int| 0 <= j < decimal_text(n).len() ==> is_digit(#[trigger] decimal_text(n)[j]),
        n > 0 ==> decimal_text(n)[0] != '0',
        n == 0 ==> decimal_text(n).len() == 1 && decimal_text(n)[0] == '0',
        decimal(decimal_text(n)) == n,
    decreases n,
{
    let text = decimal_text(n);
    if n < 10 {
        let shorter = text.drop_last();
        assert(shorter =~= Seq::<char>::empty());
        assert(decimal(shorter) == 0);
    } else {
        lemma_decimal_round_trip(n / 10);
        assert(text.drop_last() =~= decimal_text(n / 10));
        assert forall|j: int| 0 <= j < text.len() implies is_digit(#[trigger] text[j]) by {
            if j < text.len() - 1 {
                assert(text[j] == decimal_text(n / 10)[j]);
            }
        }
        assert(text[0] == decimal_text(n / 10)[0]);
    }
}

proof fn lemma_digit_run(s: Seq<char>, i: int, e: int)
    requires
        0 <= i <= e <= s.len(),
        forall|j: int| i <= j < e ==> is_digit(#[trigger] s[j]),
        e < s.len() ==> !is_digit(s[e]),
    ensures
        digits_end(s, i) == e,
    decreases e - i,
{
    if i < e {
        assert(is_digit(s[i]));
        lemma_digit_run(s, i + 1, e);
    }
}

/// A number is found where it was written.
proof fn lemma_number_at(s: Seq<char>, i: int, n: nat)
    requires
        0 <= i,
        i + decimal_text(n).len() <= s.len(),
        s.subrange(i, i + decimal_text(n).len()) == decimal_text(n),
        i + decimal_text(n).len() < s.len() ==> !is_digit(s[i + decimal_text(n).len()]),
    ensures
        number_end(s, i) == i + decimal_text(n).len(),
        decimal(s.subrange(i, number_end(s, i))) == n,
        i < number_end(s, i),
{
    lemma_decimal_round_trip(n);
    let text = decimal_text(n);
    let e = i + text.len();
    assert forall|j: int| i <= j < e implies is_digit(#[trigger] s[j]) by {
        assert(s[j] == s.subrange(i, e)[j - i]);
        assert(is_digit(text[j - i]));
    }
    assert(s[i] == text[0]);
    lemma_digit_run(s, i, e);
}

/// Where no dot and digit follow, there is no further number.
proof fn lemma_no_component(s: Seq<char>, i: int)
    requires
        0 <= i <= s.len(),
        i + 1 < s.len() && s[i] == '.' ==> !is_digit(s[i + 1]),
    ensures
        component_end(s, i) is None,
{
    if i < s.len() && s[i] == '.' {
        assert(digits_end(s, i + 1) == i + 1);
        if i + 1 < s.len() {
            assert(s[i + 1] != '0');
        }
    }
}

/// The version that `v.to_text()` at `i` is found as.
spec fn span_of(v: Version, i: int) -> VersionSpan {
    let major_end = i + decimal_text(v.major as nat).len();
    let minor_end = match v.minor {
        Some(n) => Some((major_end + 1 + decimal_text(n as nat).len()) as int),
        None => None,
    };
    VersionSpan {
        start: i,
        major_end,
        minor_end,
        patch_end: match (minor_end, v.patch) {
            (Some(e), Some(n)) => Some((e + 1 + decimal_text(n as nat).len()) as int),
            _ => None,
        },
    }
}

/// A version is found where it was written, unless what follows continues it.
#[verifier::rlimit(50)]
proof fn lemma_version_at(s: Seq<char>, front: Seq<char>, v: Version, back: Seq<char>)
    requires
        s == front + v.to_text() + back,
        v.patch is Some ==> v.minor is Some,
        back.len() > 0 ==> !is_digit(back[0]),
        v.patch is None && back.len() > 1 && back[0] == '.' ==> !is_digit(back[1]),
    ensures
        ({
            let i = front.len() as int;
            &&& number_end(s, i) > i
            &&& i < s.len()
            &&& span_at(s, i) == span_of(v, i)
            &&& span_at(s, i).end() == i + v.to_text().len()
            &&& spanned_version(s, span_at(s, i)) == Some(v)
            &&& span_at(s, i).count() == number_count(v)
        }),
{
    reveal_strlit(".");
    let i = front.len() as int;
    let major = decimal_text(v.major as nat);
    let text = v.to_text();
    let a = i + major.len();
    lemma_decimal_round_trip(v.major as nat);
    assert(s.subrange(i, a) =~= major);
    match v.minor {
        None => {
            assert(text =~= major);
            assert(a < s.len() ==> s[a] == back[0]);
            assert(a + 1 < s.len() ==> s[a + 1] == back[1]);
            lemma_number_at(s, i, v.major as nat);
            lemma_no_component(s, a);
        },
        Some(m) => {
            let minor = decimal_text(m as nat);
            lemma_decimal_round_trip(m as nat);
            let b = a + 1 + minor.len();
            match v.patch {
                None => {
                    assert(text =~= major + "."@ + minor);
                    assert(s[a] == '.');
                    assert(s.subrange(a + 1, b) =~= minor);
                    assert(b < s.len() ==> s[b] == back[0]);
                    assert(b + 1 < s.len() ==> s[b + 1] == back[1]);
                    lemma_number_at(s, i, v.major as nat);
                    lemma_number_at(s, a + 1, m as nat);
                    lemma_no_component(s, b);
                },
                Some(p) => {
                    let patch = decimal_text(p as nat);
                    lemma_decimal_round_trip(p as nat);
                    let c = b + 1 + patch.len();
                    assert(text =~= major + "."@ + minor + "."@ + patch);
                    assert(s[a] == '.');
                    assert(s[b] == '.');
                    assert(s.subrange(a + 1, b) =~= minor);
                    assert(s.subrange(b + 1, c) =~= patch);
                    assert(c < s.len() ==> s[c] == back[0]);
                    lemma_number_at(s, i, v.major as nat);
                    lemma_number_at(s, a + 1, m as nat);
                    lemma_number_at(s, b + 1, p as nat);
                },
            }
        },
    }
}

/// Text without digits holds no version.
proof fn lemma_nothing_found(s: Seq<char>, i: int, e: int, best: Option<VersionSpan>)
    requires
        0 <= i <= e <= s.len(),
        forall|j: int| i <= j < e ==> !is_digit(#[trigger] s[j]),
    ensures
        best_span(s, i, best) == best_span(s, e, best),
    decreases e - i,
{
    if i < e {
        assert(!is_digit(s[i]));
        assert(number_end(s, i) == i);
        lemma_nothing_found(s, i + 1, e, best);
    }
}

/// The format of a tag that holds a version.
proof fn lemma_format(s: Seq<char>, front: Seq<char>, v: Version, back: Seq<char>, span: VersionSpan)
    requires
        s == front + v.to_text() + back,
        v.patch is Some ==> v.minor is Some,
        span == span_of(v, front.len() as int),
        span.end() == front.len() + v.to_text().len(),
    ensures
        spanned_format(s, span) == front + blanks(v) + back,
{
    reveal_strlit("{}");
    reveal_strlit(".{}");
    reveal_strlit("{}.{}");
    reveal_strlit("{}.{}.{}");
    assert(s.take(span.start) =~= front);
    assert(s.skip(span.end()) =~= back);
    assert(spanned_format(s, span) =~= front + blanks(v) + back);
}

/// The version in a tag is found among text without digits, and the tag's format is that text
/// with pairs of braces in place of the numbers.
#[verifier::rlimit(50)]
pub proof fn law_versions_are_found_in_tags(front: Seq<char>, v: Version, back: Seq<char>)
    requires
        digit_free(front),
        digit_free(back),
        v.patch is Some ==> v.minor is Some,
    ensures
        tag_version(front + v.to_text() + back) == Some((v, front + blanks(v) + back)),
{
    let s = front + v.to_text() + back;
    let i = front.len() as int;
    assert(back.len() > 0 ==> !is_digit(back[0]));
    assert(back.len() > 1 ==> !is_digit(back[1]));
    lemma_version_at(s, front, v, back);
    assert forall|j: int| 0 <= j < i implies !is_digit(#[trigger] s[j]) by {
        assert(s[j] == front[j]);
    }
    lemma_nothing_found(s, 0, i, None);
    let span = span_at(s, i);
    let e = span.end();
    assert forall|j: int| e <= j < s.len() implies !is_digit(#[trigger] s[j]) by {
        assert(s[j] == back[j - e]);
    }
    lemma_nothing_found(s, e, s.len() as int, Some(span));
    assert(best_span(s, i, None) == best_span(s, e, Some(span)));
    assert(best_span(s, s.len() as int, Some(span)) == Some(span));
    lemma_format(s, front, v, back, span);
}

/// Of two versions in a text, the one with more numbers is found.
proof fn lemma_two_found(s: Seq<char>, i: int, e: int, g: int, h: int)
    requires
        0 <= i < e <= g < h <= s.len(),
        number_end(s, i) > i,
        number_end(s, g) > g,
        span_at(s, i).end() == e,
        span_at(s, g).end() == h,
        forall|j: int| 0 <= j < i ==> !is_digit(#[trigger] s[j]),
        forall|j: int| e <= j < g ==> !is_digit(#[trigger] s[j]),
        forall|j: int| h <= j < s.len() ==> !is_digit(#[trigger] s[j]),
    ensures
        best_span(s, 0, None) == Some(
            if span_at(s, i).count() >= span_at(s, g).count() {
                span_at(s, i)
            } else {
                span_at(s, g)
            },
        ),
{
    let first = span_at(s, i);
    let second = span_at(s, g);
    let best = if first.count() >= second.count() {
        first
    } else {
        second
    };
    lemma_nothing_found(s, 0, i, None);
    assert(best_span(s, i, None) == best_span(s, e, Some(first)));
    lemma_nothing_found(s, e, g, Some(first));
    assert(best_span(s, g, Some(first)) == best_span(s, h, Some(best)));
    lemma_nothing_found(s, h, s.len() as int, Some(best));
    assert(best_span(s, s.len() as int, Some(best)) == Some(best));
}

/// Digits stand only where the two versions do.
proof fn lemma_two_versions(
    s: Seq<char>,
    front: Seq<char>,
    v: Seq<char>,
    middle: Seq<char>,
    w: Seq<char>,
    back: Seq<char>,
)
    requires
        s == front + v + middle + w + back,
        digit_free(front),
        digit_free(middle),
        digit_free(back),
        v.len() > 0,
        w.len() > 0,
        number_end(s, front.len() as int) > front.len(),
        span_at(s, front.len() as int).end() == front.len() + v.len(),
        number_end(s, (front + v + middle).len() as int) > (front + v + middle).len(),
        span_at(s, (front + v + middle).len() as int).end() == (front + v + middle).len() + w.len(),
    ensures
        best_span(s, 0, None) == Some(
            if span_at(s, front.len() as int).count() >= span_at(
                s,
                (front + v + middle).len() as int,
            ).count() {
                span_at(s, front.len() as int)
            } else {
                span_at(s, (front + v + middle).len() as int)
            },
        ),
{
    let i = front.len() as int;
    let e = i + v.len();
    let g = e + middle.len();
    let h = g + w.len();
    assert forall|j: int| 0 <= j < i implies !is_digit(#[trigger] s[j]) by {
        assert(s[j] == front[j]);
    }
    assert forall|j: int| e <= j < g implies !is_digit(#[trigger] s[j]) by {
        assert(s[j] == middle[j - e]);
    }
    assert forall|j: int| h <= j < s.len() implies !is_digit(#[trigger] s[j]) by {
        assert(s[j] == back[j - h]);
    }
    lemma_two_found(s, i, e, g, h);
}

/// What follows a version does not continue it.
proof fn lemma_middle(v: Version, middle: Seq<char>, rest: Seq<char>)
    requires
        digit_free(middle),
        middle.len() > 0,
        v.patch is None ==> middle != seq!['.'],
    ensures
        !is_digit((middle + rest)[0]),
        v.patch is None && (middle + rest).len() > 1 && (middle + rest)[0] == '.' ==> !is_digit(
            (middle + rest)[1],
        ),
{
    assert((middle + rest)[0] == middle[0]);
    if middle.len() > 1 {
        assert((middle + rest)[1] == middle[1]);
    } else if middle[0] == '.' {
        assert(middle =~= seq!['.']);
    }
}

/// Of two versions in a tag, the one with more numbers counts, and the first one if both have as
/// many. The other one belongs to the text beside it.
#[verifier::rlimit(50)]
pub proof fn law_the_longest_version_counts(
    front: Seq<char>,
    v: Version,
    middle: Seq<char>,
    w: Version,
    back: Seq<char>,
)
    requires
        digit_free(front),
        digit_free(middle),
        digit_free(back),
        middle.len() > 0,
        v.patch is Some ==> v.minor is Some,
        w.patch is Some ==> w.minor is Some,
        v.patch is None ==> middle != seq!['.'],
    ensures
        tag_version(front + v.to_text() + middle + w.to_text() + back) == (if number_count(v)
            >= number_count(w) {
            Some((v, front + blanks(v) + (middle + (w.to_text() + back))))
        } else {
            Some((w, (front + v.to_text() + middle) + blanks(w) + back))
        }),
{
    let v_text = v.to_text();
    let w_text = w.to_text();
    let s = front + v_text + middle + w_text + back;
    let after_v = middle + (w_text + back);
    let before_w = front + v_text + middle;
    assert(s =~= front + v_text + after_v);
    assert(s =~= before_w + w_text + back);
    lemma_middle(v, middle, w_text + back);
    lemma_version_at(s, front, v, after_v);
    lemma_version_at(s, before_w, w, back);
    lemma_two_versions(s, front, v_text, middle, w_text, back);
    if number_count(v) >= number_count(w) {
        lemma_format(s, front, v, after_v, span_at(s, front.len() as int));
    } else {
        lemma_format(s, before_w, w, back, span_at(s, before_w.len() as int));
    }
}

/// A tag without digits names no version, and neither does one with a number that is too large.
#[verifier::rlimit(50)]
pub proof fn law_tags_without_a_version(front: Seq<char>, n: nat, back: Seq<char>)
    requires
        digit_free(front),
        digit_free(back),
        n > u32::MAX,
    ensures
        tag_version(front) is None,
        tag_version(front + decimal_text(n) + back) is None,
{
    assert forall|j: int| 0 <= j < front.len() implies !is_digit(#[trigger] front[j]) by {}
    lemma_nothing_found(front, 0, front.len() as int, None);
    let s = front + decimal_text(n) + back;
    let i = front.len() as int;
    let e = i + decimal_text(n).len();
    assert(s.subrange(i, e) =~= decimal_text(n));
    assert(e < s.len() ==> s[e] == back[0]);
    assert(e + 1 < s.len() ==> s[e + 1] == back[1]);
    lemma_number_at(s, i, n);
    lemma_no_component(s, e);
    assert forall|j: int| 0 <= j < i implies !is_digit(#[trigger] s[j]) by {
        assert(s[j] == front[j]);
    }
    lemma_nothing_found(s, 0, i, None);
    let span = span_at(s, i);
    assert forall|j: int| e <= j < s.len() implies !is_digit(#[trigger] s[j]) by {
        assert(s[j] == back[j - e]);
    }
    lemma_nothing_found(s, e, s.len() as int, Some(span));
    assert(best_span(s, i, None) == best_span(s, e, Some(span)));
    assert(best_span(s, s.len() as int, Some(span)) == Some(span));
}

} // verus!
