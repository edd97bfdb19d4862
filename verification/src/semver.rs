//! A subset of semantic versioning: `MAJOR[.MINOR[.PATCH]][-PRE]`, where
//! missing numbers count as zero and `PRE` is a dot-separated list of
//! identifiers.
use std::cmp::Ordering;

use vstd::prelude::*;

use crate::precedence::{
    compare_pre_release, lemma_version_order_numbers, lemma_version_order_chain, lemma_version_order_refl,
    lemma_version_order_reverse, pre_release_order, texts, version_order, Order,
};
use crate::text::{
    chars_of, decimal_text, find_char, find_char_in, free_of, free_of_white_space, is_white_space,
    join, lemma_decimal_text, lemma_digits_plain, lemma_find_char_absent, lemma_find_char_found,
    lemma_join_free_of_white_space, lemma_parse_decimal_text, lemma_split_concat,
    lemma_split_join, lemma_split_nonempty, lemma_split_single, lemma_trim_end, lemma_trim_start,
    parse_u64, parse_u64_in, split, split_ranges, substring, trim, trim_bounds,
};

verus! {

/// A parsed version.
#[derive(Debug, PartialEq, Eq)]
pub struct Semver {
    pub major: u64,
    pub minor: u64,
    pub patch: u64,
    /// Pre-release identifiers (`"rc.6"` gives `["rc", "6"]`); empty for a release.
    pub pre: Vec<String>,
}

/// The mathematical value of a version.
#[verifier::ext_equal]
pub struct SemverView {
    pub major: u64,
    pub minor: u64,
    pub patch: u64,
    pub pre: Seq<Seq<char>>,
}

impl View for Semver {
    type V = SemverView;

    open spec fn view(&self) -> SemverView {
        SemverView {
            major: self.major,
            minor: self.minor,
            patch: self.patch,
            pre: texts(self.pre@),
        }
    }
}

/// The number in the `k`-th dot-separated part; a missing part reads as zero.
pub open spec fn part_value(parts: Seq<Seq<char>>, k: int) -> Option<u64> {
    if k < parts.len() {
        parse_u64(parts[k])
    } else {
        Some(0)
    }
}

/// The version that the text `s` denotes, if any. Surrounding white space is
/// ignored; everything after the first `-` is the pre-release part; the rest
/// is split at dots, and its first three parts are the numbers (further parts
/// are ignored).
pub open spec fn semver_of(s: Seq<char>) -> Option<SemverView> {
    let t = trim(s);
    let core = match find_char(t, '-') {
        Some(i) => t.take(i),
        None => t,
    };
    let pre = match find_char(t, '-') {
        Some(i) => split(t.skip(i + 1), '.'),
        None => Seq::<Seq<char>>::empty(),
    };
    let parts = split(core, '.');
    match (part_value(parts, 0), part_value(parts, 1), part_value(parts, 2)) {
        (Some(major), Some(minor), Some(patch)) => Some(
            SemverView { major, minor, patch, pre },
        ),
        _ => None,
    }
}

/// The standard-library ordering that an `Order` stands for.
pub open spec fn std_ordering(o: Order) -> Ordering {
    match o {
        Order::Less => Ordering::Less,
        Order::Equal => Ordering::Equal,
        Order::Greater => Ordering::Greater,
    }
}

/// Whether the text `a` denotes a version of higher precedence than the text `b`;
/// false when either text is not a version.
pub open spec fn is_newer(a: Seq<char>, b: Seq<char>) -> bool {
    match (semver_of(a), semver_of(b)) {
        (Some(x), Some(y)) => version_order(x, y) == Order::Greater,
        _ => false,
    }
}

fn to_std_ordering(o: Order) -> (r: Ordering)
    ensures
        r == std_ordering(o),
{
    match o {
        Order::Less => Ordering::Less,
        Order::Equal => Ordering::Equal,
        Order::Greater => Ordering::Greater,
    }
}

/// The pieces of `s[from..to]` between occurrences of `sep`, as strings.
fn split_to_strings(s: &str, cs: &Vec<char>, from: usize, to: usize, sep: char) -> (r: Vec<
    String,
>)
    requires
        cs@ == s@,
        from <= to <= cs@.len(),
    ensures
        texts(r@) == split(cs@.subrange(from as int, to as int), sep),
{
    let ranges = split_ranges(cs, from, to, sep);
    let ghost pieces = split(cs@.subrange(from as int, to as int), sep);
    let mut r: Vec<String> = Vec::new();
    let mut k: usize = 0;
    while k < ranges.len()
        invariant
            cs@ == s@,
            k <= ranges@.len(),
            ranges@.len() == pieces.len(),
            forall|j: int|
                0 <= j < ranges@.len() ==> {
                    &&& from <= (#[trigger] ranges@[j]).0 <= ranges@[j].1 <= to
                    &&& cs@.subrange(ranges@[j].0 as int, ranges@[j].1 as int) == pieces[j]
                },
            to <= cs@.len(),
            r@.len() == k,
            forall|j: int| 0 <= j < k ==> (#[trigger] r@[j])@ == pieces[j],
        decreases ranges@.len() - k,
    {
        let (a, b) = ranges[k];
        r.push(substring(s, a, b));
        k = k + 1;
    }
    assert(texts(r@) =~= pieces);
    r
}

/// Parses a version text.
pub fn parse_semver(s: &str) -> (r: Option<Semver>)
    ensures
        match r {
            Some(v) => semver_of(s@) == Some(v@),
            None => semver_of(s@) is None,
        },
{
    let cs = chars_of(s);
    let (lo, hi) = trim_bounds(&cs);
    let ghost t = cs@.subrange(lo as int, hi as int);
    let dash = find_char_in(&cs, lo, hi, '-');
    let core_end: usize = match dash {
        Some(d) => d,
        None => hi,
    };
    let pre: Vec<String> = match dash {
        Some(d) => split_to_strings(s, &cs, d + 1, hi, '.'),
        None => Vec::new(),
    };
    proof {
        match find_char(t, '-') {
            Some(i) => {
                assert(t.take(i) =~= cs@.subrange(lo as int, core_end as int));
                assert(t.skip(i + 1) =~= cs@.subrange(core_end + 1, hi as int));
            },
            None => {
                assert(texts(pre@) =~= Seq::<Seq<char>>::empty());
            },
        }
    }
    let parts = split_ranges(&cs, lo, core_end, '.');
    proof {
        lemma_split_nonempty(cs@.subrange(lo as int, core_end as int), '.');
    }
    let major = match parse_u64_in(&cs, parts[0].0, parts[0].1) {
        Some(v) => v,
        None => {
            return None;
        },
    };
    let minor = if parts.len() > 1 {
        match parse_u64_in(&cs, parts[1].0, parts[1].1) {
            Some(v) => v,
            None => {
                return None;
            },
        }
    } else {
        0
    };
    let patch = if parts.len() > 2 {
        match parse_u64_in(&cs, parts[2].0, parts[2].1) {
            Some(v) => v,
            None => {
                return None;
            },
        }
    } else {
        0
    };
    Some(Semver { major, minor, patch, pre })
}

/// Order of two pre-release identifier lists: a release (empty list) ranks
/// above any pre-release; identifiers compare in turn, numeric ones by value
/// and above non-numeric ones, non-numeric ones as text; a list that is a
/// prefix of the other ranks below it.
pub fn cmp_pre(a: &[String], b: &[String]) -> (r: Ordering)
    ensures
        r == std_ordering(pre_release_order(texts(a@), texts(b@))),
{
    to_std_ordering(compare_pre_release(a, b))
}

impl Semver {
    /// Precedence of `self` relative to `other`: major, minor and patch in
    /// turn, then the pre-release identifiers.
    pub fn cmp(&self, other: &Semver) -> (r: Ordering)
        ensures
            r == std_ordering(version_order(self@, other@)),
    {
        if self.major < other.major {
            Ordering::Less
        } else if self.major > other.major {
            Ordering::Greater
        } else if self.minor < other.minor {
            Ordering::Less
        } else if self.minor > other.minor {
            Ordering::Greater
        } else if self.patch < other.patch {
            Ordering::Less
        } else if self.patch > other.patch {
            Ordering::Greater
        } else {
            cmp_pre(self.pre.as_slice(), other.pre.as_slice())
        }
    }
}

/// Whether version text `a` is newer than version text `b`; false when either
/// does not parse.
pub fn version_greater(a: &str, b: &str) -> (r: bool)
    ensures
        r == is_newer(a@, b@),
{
    match (parse_semver(a), parse_semver(b)) {
        (Some(va), Some(vb)) => {
            let o = va.cmp(&vb);
            match o {
                Ordering::Greater => true,
                _ => false,
            }
        },
        _ => false,
    }
}

/// The text of a version: `MAJOR.MINOR.PATCH` in decimal, followed by `-`
/// and the pre-release identifiers joined with `.` when there are any.
pub open spec fn version_text(major: u64, minor: u64, patch: u64, pre: Seq<Seq<char>>) -> Seq<char> {
    let core = decimal_text(major as nat) + seq!['.'] + decimal_text(minor as nat) + seq!['.']
        + decimal_text(patch as nat);
    if pre.len() == 0 {
        core
    } else {
        core + seq!['-'] + join(pre, '.')
    }
}

/// Parsing the text of a version gives the version back, when no
/// pre-release identifier holds a dot or white space.
pub proof fn lemma_semver_round_trip(major: u64, minor: u64, patch: u64, pre: Seq<Seq<char>>)
    requires
        forall|k: int|
            0 <= k < pre.len() ==> free_of(#[trigger] pre[k], '.') && free_of_white_space(pre[k]),
    ensures
        semver_of(version_text(major, minor, patch, pre)) == Some(
            SemverView { major, minor, patch, pre },
        ),
{
    let a = decimal_text(major as nat);
    let b = decimal_text(minor as nat);
    let c = decimal_text(patch as nat);
    lemma_decimal_text(major as nat);
    lemma_decimal_text(minor as nat);
    lemma_decimal_text(patch as nat);
    lemma_digits_plain(a);
    lemma_digits_plain(b);
    lemma_digits_plain(c);
    lemma_parse_decimal_text(major);
    lemma_parse_decimal_text(minor);
    lemma_parse_decimal_text(patch);
    let ab = a + seq!['.'] + b;
    let core = ab + seq!['.'] + c;
    // The numbers split apart at the dots.
    lemma_split_single(a, '.');
    lemma_split_single(b, '.');
    lemma_split_single(c, '.');
    lemma_split_concat(a, b, '.');
    lemma_split_concat(ab, c, '.');
    let parts = split(core, '.');
    assert(parts =~= seq![a, b, c]);
    // The numeric part holds no dash and no white space.
    assert(free_of(core, '-') && free_of_white_space(core)) by {
        assert forall|i: int| 0 <= i < core.len() implies #[trigger] core[i] != '-'
            && !is_white_space(core[i]) by {
            if i < a.len() {
                assert(core[i] == a[i]);
            } else if a.len() < i < ab.len() {
                assert(core[i] == b[i - a.len() - 1]);
            } else if ab.len() < i {
                assert(core[i] == c[i - ab.len() - 1]);
            }
        }
    }
    let t = version_text(major, minor, patch, pre);
    assert(t[0] == a[0]);
    lemma_trim_start(t, 0);
    assert(t.skip(0) =~= t);
    if pre.len() == 0 {
        assert(t == core);
        lemma_trim_end(t, t.len() as int);
        assert(t.take(t.len() as int) =~= t);
        lemma_find_char_absent(t, '-');
    } else {
        let j = join(pre, '.');
        lemma_join_free_of_white_space(pre, '.');
        if j.len() > 0 {
            assert(t.last() == j.last());
        } else {
            assert(t.last() == '-');
        }
        lemma_trim_end(t, t.len() as int);
        assert(t.take(t.len() as int) =~= t);
        assert forall|i: int| 0 <= i < core.len() implies #[trigger] t[i] != '-' by {
            assert(t[i] == core[i]);
        }
        lemma_find_char_found(t, '-', core.len() as int);
        assert(t.take(core.len() as int) =~= core);
        assert(t.skip(core.len() as int + 1) =~= j);
        lemma_split_join(pre, '.');
    }
}

/// Among written versions, a higher major number, else a higher minor
/// number, else a higher patch number makes the version newer, whatever the
/// pre-release identifiers of either.
pub proof fn lemma_newer_by_numbers(
    major: u64,
    minor: u64,
    patch: u64,
    pre: Seq<Seq<char>>,
    other_major: u64,
    other_minor: u64,
    other_patch: u64,
    other_pre: Seq<Seq<char>>,
)
    requires
        forall|k: int|
            0 <= k < pre.len() ==> free_of(#[trigger] pre[k], '.') && free_of_white_space(pre[k]),
        forall|k: int|
            0 <= k < other_pre.len() ==> free_of(#[trigger] other_pre[k], '.')
                && free_of_white_space(other_pre[k]),
        major > other_major || (major == other_major && minor > other_minor) || (major
            == other_major && minor == other_minor && patch > other_patch),
    ensures
        is_newer(
            version_text(major, minor, patch, pre),
            version_text(other_major, other_minor, other_patch, other_pre),
        ),
        !is_newer(
            version_text(other_major, other_minor, other_patch, other_pre),
            version_text(major, minor, patch, pre),
        ),
{
    lemma_semver_round_trip(major, minor, patch, pre);
    lemma_semver_round_trip(other_major, other_minor, other_patch, other_pre);
    let x = SemverView { major, minor, patch, pre };
    let y = SemverView { major: other_major, minor: other_minor, patch: other_patch, pre: other_pre };
    lemma_version_order_numbers(x, y);
    lemma_version_order_numbers(y, x);
}

/// No version text is newer than itself.
pub proof fn lemma_newer_irreflexive(a: Seq<char>)
    ensures
        !is_newer(a, a),
{
    if let Some(x) = semver_of(a) {
        lemma_version_order_refl(x);
    }
}

/// If `a` is newer than `b`, then `b` is not newer than `a`.
pub proof fn lemma_newer_asymmetric(a: Seq<char>, b: Seq<char>)
    requires
        is_newer(a, b),
    ensures
        !is_newer(b, a),
{
    lemma_version_order_reverse(semver_of(a)->0, semver_of(b)->0);
}

/// If `a` is newer than `b` and `b` newer than `c`, then `a` is newer than `c`.
pub proof fn lemma_newer_transitive(a: Seq<char>, b: Seq<char>, c: Seq<char>)
    requires
        is_newer(a, b),
        is_newer(b, c),
    ensures
        is_newer(a, c),
{
    let x = semver_of(a)->0;
    let y = semver_of(b)->0;
    let z = semver_of(c)->0;
    lemma_version_order_reverse(x, y);
    lemma_version_order_reverse(y, z);
    lemma_version_order_reverse(x, z);
    lemma_version_order_chain(z, y, x);
}

/// Exactly one of "newer", "older" and "same precedence" holds between two
/// version texts that both parse.
pub proof fn lemma_newer_trichotomy(a: Seq<char>, b: Seq<char>)
    requires
        semver_of(a) is Some,
        semver_of(b) is Some,
    ensures
        is_newer(a, b) || is_newer(b, a) || version_order(semver_of(a)->0, semver_of(b)->0)
            == Order::Equal,
{
    lemma_version_order_reverse(semver_of(a)->0, semver_of(b)->0);
}

} // verus!
