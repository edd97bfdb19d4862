//! Precedence between versions: the order of pre-release identifiers, of
//! pre-release lists and of whole versions, with the laws that make it a
//! total preorder.
use vstd::prelude::*;

use crate::semver::SemverView;
use crate::text::{chars_of, parse_u64, parse_u64_in};

verus! {

/// The outcome of comparing two values.
#[derive(PartialEq, Eq, Structural, Clone, Copy, Debug)]
pub enum Order {
    Less,
    Equal,
    Greater,
}

impl Order {
    /// The outcome with the two sides swapped.
    pub open spec fn reverse(self) -> Order {
        match self {
            Order::Less => Order::Greater,
            Order::Equal => Order::Equal,
            Order::Greater => Order::Less,
        }
    }
}

/// Numeric order of two unsigned integers.
pub open spec fn order_of_ints(a: int, b: int) -> Order {
    if a < b {
        Order::Less
    } else if a == b {
        Order::Equal
    } else {
        Order::Greater
    }
}

/// Lexicographic order of two character sequences by code point; for strings
/// this is the order of their UTF-8 bytes, which `String`'s `Ord` uses.
pub open spec fn text_order(x: Seq<char>, y: Seq<char>) -> Order
    decreases x.len(),
{
    if x.len() == 0 {
        if y.len() == 0 {
            Order::Equal
        } else {
            Order::Less
        }
    } else if y.len() == 0 {
        Order::Greater
    } else if x[0] < y[0] {
        Order::Less
    } else if y[0] < x[0] {
        Order::Greater
    } else {
        text_order(x.drop_first(), y.drop_first())
    }
}

/// Order of two pre-release identifiers: numeric identifiers (those that
/// `parse::<u64>` accepts) compare by value and rank above all others; the
/// others compare as text.
pub open spec fn identifier_order(x: Seq<char>, y: Seq<char>) -> Order {
    match (parse_u64(x), parse_u64(y)) {
        (Some(a), Some(b)) => order_of_ints(a as int, b as int),
        (Some(_), None) => Order::Greater,
        (None, Some(_)) => Order::Less,
        (None, None) => text_order(x, y),
    }
}

/// Order of two identifier lists: the first identifiers that differ decide;
/// when one list is a prefix of the other, the shorter one is less.
pub open spec fn identifiers_order(a: Seq<Seq<char>>, b: Seq<Seq<char>>) -> Order
    decreases a.len(),
{
    if a.len() == 0 || b.len() == 0 {
        order_of_ints(a.len() as int, b.len() as int)
    } else {
        let o = identifier_order(a[0], b[0]);
        if o != Order::Equal {
            o
        } else {
            identifiers_order(a.drop_first(), b.drop_first())
        }
    }
}

/// Order of two pre-release lists: an empty list (a release) ranks above
/// every pre-release; otherwise the identifiers decide.
pub open spec fn pre_release_order(a: Seq<Seq<char>>, b: Seq<Seq<char>>) -> Order {
    if a.len() == 0 && b.len() == 0 {
        Order::Equal
    } else if a.len() == 0 {
        Order::Greater
    } else if b.len() == 0 {
        Order::Less
    } else {
        identifiers_order(a, b)
    }
}

/// Precedence of two versions: major, minor and patch numbers in turn, then
/// the pre-release lists.
pub open spec fn version_order(a: SemverView, b: SemverView) -> Order {
    if a.major != b.major {
        order_of_ints(a.major as int, b.major as int)
    } else if a.minor != b.minor {
        order_of_ints(a.minor as int, b.minor as int)
    } else if a.patch != b.patch {
        order_of_ints(a.patch as int, b.patch as int)
    } else {
        pre_release_order(a.pre, b.pre)
    }
}

/// `o1` then `o2` leave the left value at most the right one, and strictly
/// below it when either step is strict: what a transitive preorder gives.
pub open spec fn chains_to(o1: Order, o2: Order, o: Order) -> bool {
    &&& (o1 != Order::Greater && o2 != Order::Greater ==> o != Order::Greater)
    &&& ((o1 == Order::Less && o2 != Order::Greater) || (o1 != Order::Greater && o2
        == Order::Less) ==> o == Order::Less)
}

/// Text order: swapping the sides reverses it.
pub proof fn lemma_text_order_reverse(x: Seq<char>, y: Seq<char>)
    ensures
        text_order(y, x) == text_order(x, y).reverse(),
    decreases x.len(),
{
    if x.len() > 0 && y.len() > 0 && x[0] == y[0] {
        lemma_text_order_reverse(x.drop_first(), y.drop_first());
    }
}

/// Text order: equal exactly for equal texts.
pub proof fn lemma_text_order_equal(x: Seq<char>, y: Seq<char>)
    ensures
        (text_order(x, y) == Order::Equal) <==> (x == y),
    decreases x.len(),
{
    if x.len() == 0 && y.len() == 0 {
        assert(x =~= y);
    }
    if x.len() > 0 && y.len() > 0 {
        lemma_text_order_equal(x.drop_first(), y.drop_first());
        if x[0] == y[0] && x.drop_first() == y.drop_first() {
            assert(x =~= y) by {
                assert forall|i: int| 0 <= i < x.len() implies x[i] == y[i] by {
                    if i > 0 {
                        assert(x[i] == x.drop_first()[i - 1]);
                        assert(y[i] == y.drop_first()[i - 1]);
                    }
                }
            }
        }
        if x == y {
            assert(x.drop_first() =~= y.drop_first());
        }
    }
}

/// Text order is transitive.
pub proof fn lemma_text_order_chain(x: Seq<char>, y: Seq<char>, z: Seq<char>)
    ensures
        chains_to(text_order(x, y), text_order(y, z), text_order(x, z)),
    decreases x.len(),
{
    if x.len() > 0 && y.len() > 0 && z.len() > 0 && x[0] == y[0] && y[0] == z[0] {
        lemma_text_order_chain(x.drop_first(), y.drop_first(), z.drop_first());
    }
}

/// Identifier order: swapping the sides reverses it.
pub proof fn lemma_identifier_order_reverse(x: Seq<char>, y: Seq<char>)
    ensures
        identifier_order(y, x) == identifier_order(x, y).reverse(),
{
    lemma_text_order_reverse(x, y);
}

/// Identifier order: every identifier equals itself.
pub proof fn lemma_identifier_order_refl(x: Seq<char>)
    ensures
        identifier_order(x, x) == Order::Equal,
{
    lemma_text_order_equal(x, x);
}

/// Identifier order is transitive.
pub proof fn lemma_identifier_order_chain(x: Seq<char>, y: Seq<char>, z: Seq<char>)
    ensures
        chains_to(identifier_order(x, y), identifier_order(y, z), identifier_order(x, z)),
{
    lemma_text_order_chain(x, y, z);
}

/// Identifier-list order: swapping the sides reverses it.
pub proof fn lemma_identifiers_order_reverse(a: Seq<Seq<char>>, b: Seq<Seq<char>>)
    ensures
        identifiers_order(b, a) == identifiers_order(a, b).reverse(),
    decreases a.len(),
{
    if a.len() > 0 && b.len() > 0 {
        lemma_identifier_order_reverse(a[0], b[0]);
        lemma_identifiers_order_reverse(a.drop_first(), b.drop_first());
    }
}

/// Identifier-list order: every list equals itself.
pub proof fn lemma_identifiers_order_refl(a: Seq<Seq<char>>)
    ensures
        identifiers_order(a, a) == Order::Equal,
    decreases a.len(),
{
    if a.len() > 0 {
        lemma_identifier_order_refl(a[0]);
        lemma_identifiers_order_refl(a.drop_first());
    }
}

/// Identifier-list order is transitive.
pub proof fn lemma_identifiers_order_chain(a: Seq<Seq<char>>, b: Seq<Seq<char>>, c: Seq<Seq<char>>)
    ensures
        chains_to(identifiers_order(a, b), identifiers_order(b, c), identifiers_order(a, c)),
    decreases a.len(),
{
    if a.len() > 0 && b.len() > 0 && c.len() > 0 {
        lemma_identifier_order_chain(a[0], b[0], c[0]);
        lemma_identifier_order_reverse(a[0], b[0]);
        lemma_identifier_order_reverse(b[0], c[0]);
        lemma_identifier_order_reverse(a[0], c[0]);
        lemma_identifiers_order_chain(a.drop_first(), b.drop_first(), c.drop_first());
    }
}

/// Pre-release order: swapping the sides reverses it.
pub proof fn lemma_pre_release_order_reverse(a: Seq<Seq<char>>, b: Seq<Seq<char>>)
    ensures
        pre_release_order(b, a) == pre_release_order(a, b).reverse(),
{
    lemma_identifiers_order_reverse(a, b);
}

/// Pre-release order is transitive.
pub proof fn lemma_pre_release_order_chain(a: Seq<Seq<char>>, b: Seq<Seq<char>>, c: Seq<Seq<char>>)
    ensures
        chains_to(pre_release_order(a, b), pre_release_order(b, c), pre_release_order(a, c)),
{
    lemma_identifiers_order_chain(a, b, c);
}

/// The order of two versions is the reverse of the order with the sides swapped.
pub proof fn lemma_version_order_reverse(a: SemverView, b: SemverView)
    ensures
        version_order(b, a) == version_order(a, b).reverse(),
{
    lemma_pre_release_order_reverse(a.pre, b.pre);
}

/// Every version has the same precedence as itself.
pub proof fn lemma_version_order_refl(a: SemverView)
    ensures
        version_order(a, a) == Order::Equal,
{
    lemma_identifiers_order_refl(a.pre);
}

/// Version precedence is transitive: at most then at most gives at most, and
/// a strict step anywhere gives strictly less.
pub proof fn lemma_version_order_chain(a: SemverView, b: SemverView, c: SemverView)
    ensures
        chains_to(version_order(a, b), version_order(b, c), version_order(a, c)),
{
    lemma_pre_release_order_chain(a.pre, b.pre, c.pre);
}

/// A release ranks above every pre-release of the same major, minor and patch numbers.
pub proof fn lemma_release_outranks_pre_release(a: SemverView, b: SemverView)
    requires
        a.major == b.major,
        a.minor == b.minor,
        a.patch == b.patch,
        a.pre.len() == 0,
        b.pre.len() > 0,
    ensures
        version_order(a, b) == Order::Greater,
{
}

/// Text order is decided by the first position where the texts differ:
/// the text with the smaller character there is less.
pub proof fn lemma_text_order_first_difference(x: Seq<char>, y: Seq<char>, k: int)
    requires
        0 <= k < x.len(),
        k < y.len(),
        x[k] != y[k],
        forall|j: int| 0 <= j < k ==> x[j] == y[j],
    ensures
        text_order(x, y) == if x[k] < y[k] {
            Order::Less
        } else {
            Order::Greater
        },
    decreases k,
{
    if k > 0 {
        let (x1, y1) = (x.drop_first(), y.drop_first());
        assert(x[0] == y[0]);
        assert forall|j: int| 0 <= j < k - 1 implies x1[j] == y1[j] by {
            assert(x1[j] == x[j + 1] && y1[j] == y[j + 1]);
        }
        assert(x1[k - 1] == x[k] && y1[k - 1] == y[k]);
        lemma_text_order_first_difference(x1, y1, k - 1);
    }
}

/// A proper prefix is less than the longer text; a text equals itself.
pub proof fn lemma_text_order_prefix(x: Seq<char>, y: Seq<char>)
    requires
        x.len() <= y.len(),
        forall|j: int| 0 <= j < x.len() ==> x[j] == y[j],
    ensures
        text_order(x, y) == if x.len() < y.len() {
            Order::Less
        } else {
            Order::Equal
        },
    decreases x.len(),
{
    if x.len() > 0 {
        let (x1, y1) = (x.drop_first(), y.drop_first());
        assert(x[0] == y[0]);
        assert forall|j: int| 0 <= j < x1.len() implies x1[j] == y1[j] by {
            assert(x1[j] == x[j + 1] && y1[j] == y[j + 1]);
        }
        lemma_text_order_prefix(x1, y1);
    }
}

/// Identifiers that both read as numbers compare by their values; a numeric
/// identifier ranks above a non-numeric one; two non-numeric identifiers
/// compare as text.
pub proof fn lemma_identifier_order_cases(x: Seq<char>, y: Seq<char>)
    ensures
        parse_u64(x) is Some && parse_u64(y) is Some ==> identifier_order(x, y) == (if parse_u64(
            x,
        )->0 < parse_u64(y)->0 {
            Order::Less
        } else if parse_u64(x)->0 == parse_u64(y)->0 {
            Order::Equal
        } else {
            Order::Greater
        }),
        parse_u64(x) is Some && parse_u64(y) is None ==> identifier_order(x, y) == Order::Greater,
        parse_u64(x) is None && parse_u64(y) is Some ==> identifier_order(x, y) == Order::Less,
        parse_u64(x) is None && parse_u64(y) is None ==> identifier_order(x, y) == text_order(x, y),
{
}

/// Two non-empty pre-release lists are decided by the first position where
/// their identifiers differ, whatever their lengths.
pub proof fn lemma_pre_release_first_difference(a: Seq<Seq<char>>, b: Seq<Seq<char>>, k: int)
    requires
        0 <= k < a.len(),
        k < b.len(),
        forall|j: int| 0 <= j < k ==> identifier_order(a[j], b[j]) == Order::Equal,
        identifier_order(a[k], b[k]) != Order::Equal,
    ensures
        pre_release_order(a, b) == identifier_order(a[k], b[k]),
{
    lemma_identifiers_first_difference(a, b, k);
}

proof fn lemma_identifiers_first_difference(a: Seq<Seq<char>>, b: Seq<Seq<char>>, k: int)
    requires
        0 <= k < a.len(),
        k < b.len(),
        forall|j: int| 0 <= j < k ==> identifier_order(a[j], b[j]) == Order::Equal,
        identifier_order(a[k], b[k]) != Order::Equal,
    ensures
        identifiers_order(a, b) == identifier_order(a[k], b[k]),
    decreases k,
{
    if k > 0 {
        let (a1, b1) = (a.drop_first(), b.drop_first());
        assert(identifier_order(a[0], b[0]) == Order::Equal);
        assert forall|j: int| 0 <= j < k - 1 implies identifier_order(a1[j], b1[j])
            == Order::Equal by {
            assert(a1[j] == a[j + 1] && b1[j] == b[j + 1]);
        }
        assert(a1[k - 1] == a[k] && b1[k - 1] == b[k]);
        lemma_identifiers_first_difference(a1, b1, k - 1);
    }
}

/// When the identifiers of two non-empty pre-release lists agree as far as
/// the shorter one goes, the shorter list is less, and lists of equal length
/// have the same precedence.
pub proof fn lemma_pre_release_prefix(a: Seq<Seq<char>>, b: Seq<Seq<char>>)
    requires
        a.len() > 0,
        b.len() > 0,
        forall|j: int|
            0 <= j < a.len() && j < b.len() ==> identifier_order(a[j], b[j]) == Order::Equal,
    ensures
        pre_release_order(a, b) == if a.len() < b.len() {
            Order::Less
        } else if a.len() == b.len() {
            Order::Equal
        } else {
            Order::Greater
        },
{
    lemma_identifiers_prefix(a, b);
}

proof fn lemma_identifiers_prefix(a: Seq<Seq<char>>, b: Seq<Seq<char>>)
    requires
        forall|j: int|
            0 <= j < a.len() && j < b.len() ==> identifier_order(a[j], b[j]) == Order::Equal,
    ensures
        identifiers_order(a, b) == if a.len() < b.len() {
            Order::Less
        } else if a.len() == b.len() {
            Order::Equal
        } else {
            Order::Greater
        },
    decreases a.len(),
{
    if a.len() > 0 && b.len() > 0 {
        let (a1, b1) = (a.drop_first(), b.drop_first());
        assert(identifier_order(a[0], b[0]) == Order::Equal);
        assert forall|j: int| 0 <= j < a1.len() && j < b1.len() implies identifier_order(
            a1[j],
            b1[j],
        ) == Order::Equal by {
            assert(a1[j] == a[j + 1] && b1[j] == b[j + 1]);
        }
        lemma_identifiers_prefix(a1, b1);
    }
}

/// Versions compare by major number first, then minor, then patch; only when
/// all three agree do the pre-release identifiers matter.
pub proof fn lemma_version_order_numbers(a: SemverView, b: SemverView)
    ensures
        a.major < b.major ==> version_order(a, b) == Order::Less,
        a.major > b.major ==> version_order(a, b) == Order::Greater,
        a.major == b.major && a.minor < b.minor ==> version_order(a, b) == Order::Less,
        a.major == b.major && a.minor > b.minor ==> version_order(a, b) == Order::Greater,
        a.major == b.major && a.minor == b.minor && a.patch < b.patch ==> version_order(a, b)
            == Order::Less,
        a.major == b.major && a.minor == b.minor && a.patch > b.patch ==> version_order(a, b)
            == Order::Greater,
        a.major == b.major && a.minor == b.minor && a.patch == b.patch ==> version_order(a, b)
            == pre_release_order(a.pre, b.pre),
{
}

/// Lexicographic order of two strings by code point.
pub fn compare_text(x: &str, y: &str) -> (r: Order)
    ensures
        r == text_order(x@, y@),
{
    let xs = chars_of(x);
    let ys = chars_of(y);
    let n = xs.len();
    let m = ys.len();
    let mut i: usize = 0;
    assert(xs@.skip(0) =~= xs@);
    assert(ys@.skip(0) =~= ys@);
    while i < n && i < m
        invariant
            xs@ == x@,
            ys@ == y@,
            n == xs@.len(),
            m == ys@.len(),
            i <= n,
            i <= m,
            text_order(xs@, ys@) == text_order(xs@.skip(i as int), ys@.skip(i as int)),
        decreases n - i,
    {
        let ghost xi = xs@.skip(i as int);
        let ghost yi = ys@.skip(i as int);
        assert(xi[0] == xs@[i as int]);
        assert(yi[0] == ys@[i as int]);
        if xs[i] < ys[i] {
            return Order::Less;
        }
        if ys[i] < xs[i] {
            return Order::Greater;
        }
        assert(xi.drop_first() =~= xs@.skip(i + 1));
        assert(yi.drop_first() =~= ys@.skip(i + 1));
        i = i + 1;
    }
    if n < m {
        Order::Less
    } else if n == m {
        Order::Equal
    } else {
        Order::Greater
    }
}

/// Order of two pre-release identifiers.
pub fn compare_identifier(x: &String, y: &String) -> (r: Order)
    ensures
        r == identifier_order(x@, y@),
{
    let xs = chars_of(x.as_str());
    let ys = chars_of(y.as_str());
    assert(xs@.subrange(0, xs@.len() as int) =~= xs@);
    assert(ys@.subrange(0, ys@.len() as int) =~= ys@);
    let px = parse_u64_in(&xs, 0, xs.len());
    let py = parse_u64_in(&ys, 0, ys.len());
    match (px, py) {
        (Some(a), Some(b)) => {
            if a < b {
                Order::Less
            } else if a == b {
                Order::Equal
            } else {
                Order::Greater
            }
        },
        (Some(_), None) => Order::Greater,
        (None, Some(_)) => Order::Less,
        (None, None) => compare_text(x.as_str(), y.as_str()),
    }
}

/// The texts of a list of strings.
pub open spec fn texts(v: Seq<String>) -> Seq<Seq<char>> {
    v.map_values(|s: String| s@)
}

/// Order of two pre-release lists.
pub fn compare_pre_release(a: &[String], b: &[String]) -> (r: Order)
    ensures
        r == pre_release_order(texts(a@), texts(b@)),
{
    let n = a.len();
    let m = b.len();
    if n == 0 && m == 0 {
        return Order::Equal;
    }
    if n == 0 {
        return Order::Greater;
    }
    if m == 0 {
        return Order::Less;
    }
    let ghost ta = texts(a@);
    let ghost tb = texts(b@);
    let mut i: usize = 0;
    assert(ta.skip(0) =~= ta);
    assert(tb.skip(0) =~= tb);
    while i < n && i < m
        invariant
            n == a@.len(),
            m == b@.len(),
            ta == texts(a@),
            tb == texts(b@),
            i <= n,
            i <= m,
            identifiers_order(ta, tb) == identifiers_order(ta.skip(i as int), tb.skip(i as int)),
        decreases n - i,
    {
        let ghost ai = ta.skip(i as int);
        let ghost bi = tb.skip(i as int);
        assert(ai[0] == a@[i as int]@);
        assert(bi[0] == b@[i as int]@);
        let o = compare_identifier(&a[i], &b[i]);
        if o != Order::Equal {
            return o;
        }
        assert(ai.drop_first() =~= ta.skip(i + 1));
        assert(bi.drop_first() =~= tb.skip(i + 1));
        i = i + 1;
    }
    if n < m {
        Order::Less
    } else if n == m {
        Order::Equal
    } else {
        Order::Greater
    }
}

} // verus!
