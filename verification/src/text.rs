//! Ordering of names and titles.
//!
//! Text is compared by code point, which is the order of `str` in Rust.
//! Names of artists and albums are compared without regard to case; two
//! names that differ only in case are ordered by their exact spelling, so
//! that the order of distinct names is always strict.

use crate::sorting::Ranked;
use vstd::prelude::*;
use vstd::std_specs::iter::IteratorSpec;

verus! {

broadcast use vstd::string::group_string_axioms;

/// `a` comes strictly before `b` in code-point order.
pub open spec fn text_lt(a: Seq<char>, b: Seq<char>) -> bool
    decreases a.len(),
{
    if b.len() == 0 {
        false
    } else if a.len() == 0 {
        true
    } else if a[0] != b[0] {
        (a[0] as int) < (b[0] as int)
    } else {
        text_lt(a.drop_first(), b.drop_first())
    }
}

/// `a` comes before `b` in code-point order, or equals it.
pub open spec fn text_le(a: Seq<char>, b: Seq<char>) -> bool {
    !text_lt(b, a)
}

/// Code-point order never puts a text before itself.
pub proof fn lemma_text_lt_irreflexive(a: Seq<char>)
    ensures
        !text_lt(a, a),
    decreases a.len(),
{
    if a.len() > 0 {
        lemma_text_lt_irreflexive(a.drop_first());
    }
}

/// Of two different texts, exactly one comes before the other.
pub proof fn lemma_text_lt_total(a: Seq<char>, b: Seq<char>)
    ensures
        a != b ==> (text_lt(a, b) <==> !text_lt(b, a)),
        a == b ==> !text_lt(a, b),
    decreases a.len(),
{
    if a == b {
        lemma_text_lt_irreflexive(a);
    } else if a.len() > 0 && b.len() > 0 {
        if a[0] == b[0] {
            if a.drop_first() == b.drop_first() {
                assert(a =~= seq![a[0]] + a.drop_first());
                assert(b =~= seq![b[0]] + b.drop_first());
                assert(false);
            }
            lemma_text_lt_total(a.drop_first(), b.drop_first());
        }
    } else {
        if a.len() == 0 {
            assert(a =~= Seq::<char>::empty());
        }
        if b.len() == 0 {
            assert(b =~= Seq::<char>::empty());
        }
    }
}

/// Code-point order is transitive.
pub proof fn lemma_text_lt_transitive(a: Seq<char>, b: Seq<char>, c: Seq<char>)
    requires
        text_lt(a, b),
        text_lt(b, c),
    ensures
        text_lt(a, c),
    decreases a.len(),
{
    if a.len() > 0 && a[0] == b[0] && b[0] == c[0] {
        lemma_text_lt_transitive(a.drop_first(), b.drop_first(), c.drop_first());
    }
}

/// Whether `a` comes strictly before `b` in code-point order.
pub fn text_precedes(a: &str, b: &str) -> (r: bool)
    ensures
        r == text_lt(a@, b@),
{
    let mut rest_a = a.chars();
    let mut rest_b = b.chars();
    loop
        invariant
            text_lt(a@, b@) == text_lt(rest_a.remaining(), rest_b.remaining()),
            rest_a.decrease() is Some,
        decreases rest_a.decrease()->0,
    {
        let next_a = rest_a.next();
        let next_b = rest_b.next();
        match (next_a, next_b) {
            (_, None) => {
                return false;
            },
            (None, Some(_)) => {
                return true;
            },
            (Some(x), Some(y)) => {
                if x != y {
                    return x < y;
                }
            },
        }
    }
}

/// Whether two texts are the same.
pub fn text_equal(a: &str, b: &str) -> (r: bool)
    ensures
        r == (a@ == b@),
{
    let mut rest_a = a.chars();
    let mut rest_b = b.chars();
    let ghost mut at: int = 0;
    proof {
        assert(a@.skip(0) =~= a@);
        assert(b@.skip(0) =~= b@);
    }
    loop
        invariant
            0 <= at <= a@.len(),
            at <= b@.len(),
            rest_a.remaining() == a@.skip(at),
            rest_b.remaining() == b@.skip(at),
            forall|k: int| 0 <= k < at ==> a@[k] == b@[k],
            rest_a.decrease() is Some,
        decreases rest_a.decrease()->0,
    {
        let next_a = rest_a.next();
        let next_b = rest_b.next();
        match (next_a, next_b) {
            (None, None) => {
                assert(a@ =~= b@);
                return true;
            },
            (Some(x), Some(y)) => {
                if x != y {
                    assert(a@[at] != b@[at]);
                    return false;
                }
                proof {
                    assert(a@.skip(at).drop_first() =~= a@.skip(at + 1));
                    assert(b@.skip(at).drop_first() =~= b@.skip(at + 1));
                    at = at + 1;
                }
            },
            _ => {
                assert(a@.len() != b@.len());
                return false;
            },
        }
    }
}

/// The lower-case form of a text, as `str::to_lowercase` gives it.
pub uninterp spec fn lowercase_of(s: Seq<char>) -> Seq<char>;

/// Trusted: calls `str::to_lowercase` of the standard library. The
/// contract only names the result: the lower-case form depends on the text
/// alone (the conversion follows the Unicode tables and takes no locale).
#[verifier::external_body]
pub(crate) fn lowercase(s: &str) -> (r: String)
    ensures
        r@ == lowercase_of(s@),
{
    s.to_lowercase()
}

/// The order of names: by lower-case form first, and among names with the
/// same lower-case form by exact spelling.
pub open spec fn name_le(a: Seq<char>, b: Seq<char>) -> bool {
    let la = lowercase_of(a);
    let lb = lowercase_of(b);
    text_lt(la, lb) || (la == lb && text_le(a, b))
}

/// `a` comes strictly before `b` in the order of names.
pub open spec fn name_lt(a: Seq<char>, b: Seq<char>) -> bool {
    name_le(a, b) && a != b
}

/// Any two names are comparable.
pub proof fn lemma_name_le_total(a: Seq<char>, b: Seq<char>)
    ensures
        name_le(a, b) || name_le(b, a),
{
    lemma_text_lt_total(lowercase_of(a), lowercase_of(b));
    lemma_text_lt_total(a, b);
}

/// The order of names is transitive.
pub proof fn lemma_name_le_transitive(a: Seq<char>, b: Seq<char>, c: Seq<char>)
    requires
        name_le(a, b),
        name_le(b, c),
    ensures
        name_le(a, c),
{
    let la = lowercase_of(a);
    let lb = lowercase_of(b);
    let lc = lowercase_of(c);
    if text_lt(la, lb) && text_lt(lb, lc) {
        lemma_text_lt_transitive(la, lb, lc);
    } else if la == lb && lb == lc {
        lemma_text_lt_total(a, b);
        lemma_text_lt_total(b, c);
        lemma_text_lt_total(a, c);
        if text_lt(c, a) {
            if a == b {
            } else if b == c {
            } else {
                lemma_text_lt_transitive(a, b, c);
            }
        }
    }
}

/// Two names that each come before the other are the same name.
pub proof fn lemma_name_le_antisymmetric(a: Seq<char>, b: Seq<char>)
    requires
        name_le(a, b),
        name_le(b, a),
    ensures
        a == b,
{
    lemma_text_lt_total(lowercase_of(a), lowercase_of(b));
    lemma_text_lt_total(a, b);
}

/// Whether `a` comes before `b` in the order of names, or is the same name.
pub fn name_precedes(a: &str, b: &str) -> (r: bool)
    ensures
        r == name_le(a@, b@),
{
    let la = lowercase(a);
    let lb = lowercase(b);
    if text_precedes(la.as_str(), lb.as_str()) {
        true
    } else if text_equal(la.as_str(), lb.as_str()) {
        !text_precedes(b, a)
    } else {
        false
    }
}

impl Ranked for String {
    open spec fn rank_le(a: Seq<char>, b: Seq<char>) -> bool {
        name_le(a, b)
    }

    proof fn lemma_rank_total(a: Seq<char>, b: Seq<char>) {
        lemma_name_le_total(a, b);
    }

    proof fn lemma_rank_transitive(a: Seq<char>, b: Seq<char>, c: Seq<char>) {
        lemma_name_le_transitive(a, b, c);
    }

    fn ranks_le(&self, other: &Self) -> (r: bool) {
        name_precedes(self.as_str(), other.as_str())
    }
}

} // verus!
