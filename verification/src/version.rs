//! The order of installed node versions, named like `v20.1.0`: by their
//! numeric components, so that `v20` comes after `v9`.
use vstd::prelude::*;

use crate::text::{
    chars_of, lemma_text_lt_asymmetric, lemma_text_lt_irreflexive, lemma_text_lt_total,
    lemma_text_lt_transitive, split_on, split_on_exec, sub_chars, text_lt, text_lt_exec,
};

verus! {

pub open spec fn is_digit(c: char) -> bool {
    48 <= (c as u32) <= 57
}

/// `acc` with the decimal digit `d` appended, held at `u64::MAX` once it
/// no longer fits.
pub open spec fn append_digit(acc: u64, d: u64) -> u64 {
    if acc * 10 + d > u64::MAX {
        u64::MAX
    } else {
        (acc * 10 + d) as u64
    }
}

/// `acc` followed by the leading decimal digits of `c`, as a number held at
/// `u64::MAX`.
pub open spec fn fold_digits(c: Seq<char>, acc: u64) -> u64
    decreases c.len(),
{
    if c.len() == 0 || !is_digit(c[0]) {
        acc
    } else {
        fold_digits(c.drop_first(), append_digit(acc, ((c[0] as u32) - 48) as u64))
    }
}

/// The number a version component starts with; 0 when it starts with no
/// digit.
pub open spec fn component_value(c: Seq<char>) -> u64 {
    fold_digits(c, 0)
}

/// A version name without its leading `v`.
pub open spec fn without_v(name: Seq<char>) -> Seq<char> {
    if name.len() > 0 && name[0] == 'v' {
        name.drop_first()
    } else {
        name
    }
}

/// The numeric components of a version name: `v20.1.0` gives 20, 1, 0.
pub open spec fn version_key(name: Seq<char>) -> Seq<u64> {
    split_on(without_v(name), '.').map_values(|p: Seq<char>| component_value(p))
}

/// Lexicographic order on sequences of numbers; a proper prefix comes first.
pub open spec fn key_lt(a: Seq<u64>, b: Seq<u64>) -> bool
    decreases a.len(),
{
    if a.len() == 0 {
        b.len() > 0
    } else if b.len() == 0 {
        false
    } else if a[0] != b[0] {
        a[0] < b[0]
    } else {
        key_lt(a.drop_first(), b.drop_first())
    }
}

/// Version `a` is older than version `b`: its components are less, compared
/// as numbers from the first; names with the same components are ordered as
/// text.
pub open spec fn version_lt(a: Seq<char>, b: Seq<char>) -> bool {
    key_lt(version_key(a), version_key(b)) || (version_key(a) == version_key(b) && text_lt(a, b))
}

pub proof fn lemma_key_lt_irreflexive(a: Seq<u64>)
    ensures
        !key_lt(a, a),
    decreases a.len(),
{
    if a.len() > 0 {
        lemma_key_lt_irreflexive(a.drop_first());
    }
}

pub proof fn lemma_key_lt_transitive(a: Seq<u64>, b: Seq<u64>, c: Seq<u64>)
    requires
        key_lt(a, b),
        key_lt(b, c),
    ensures
        key_lt(a, c),
    decreases a.len(),
{
    if a.len() > 0 && b.len() > 0 && c.len() > 0 && a[0] == b[0] && b[0] == c[0] {
        lemma_key_lt_transitive(a.drop_first(), b.drop_first(), c.drop_first());
    }
}

pub proof fn lemma_key_lt_total(a: Seq<u64>, b: Seq<u64>)
    requires
        a != b,
    ensures
        key_lt(a, b) || key_lt(b, a),
    decreases a.len(),
{
    if a.len() > 0 && b.len() > 0 && a[0] == b[0] {
        if a.drop_first() == b.drop_first() {
            assert(a =~= seq![a[0]] + a.drop_first());
            assert(b =~= seq![b[0]] + b.drop_first());
        }
        lemma_key_lt_total(a.drop_first(), b.drop_first());
    } else if a.len() == 0 && b.len() == 0 {
        assert(a =~= b);
    }
}

pub proof fn lemma_version_lt_irreflexive(a: Seq<char>)
    ensures
        !version_lt(a, a),
{
    lemma_key_lt_irreflexive(version_key(a));
    lemma_text_lt_irreflexive(a);
}

pub proof fn lemma_version_lt_transitive(a: Seq<char>, b: Seq<char>, c: Seq<char>)
    requires
        version_lt(a, b),
        version_lt(b, c),
    ensures
        version_lt(a, c),
{
    let (ka, kb, kc) = (version_key(a), version_key(b), version_key(c));
    if key_lt(ka, kb) && key_lt(kb, kc) {
        lemma_key_lt_transitive(ka, kb, kc);
    } else if !key_lt(ka, kb) && !key_lt(kb, kc) {
        lemma_text_lt_transitive(a, b, c);
    }
}

pub proof fn lemma_version_lt_total(a: Seq<char>, b: Seq<char>)
    requires
        a != b,
    ensures
        version_lt(a, b) || version_lt(b, a),
{
    if version_key(a) != version_key(b) {
        lemma_key_lt_total(version_key(a), version_key(b));
    } else {
        lemma_text_lt_total(a, b);
    }
}

pub proof fn lemma_version_lt_asymmetric(a: Seq<char>, b: Seq<char>)
    requires
        version_lt(a, b),
    ensures
        !version_lt(b, a),
{
    if version_lt(b, a) {
        lemma_version_lt_transitive(a, b, a);
        lemma_version_lt_irreflexive(a);
    }
}

/// The number a version component starts with.
fn component_value_exec(c: &[char]) -> (r: u64)
    ensures
        r == component_value(c@),
{
    let mut acc: u64 = 0;
    let mut i: usize = 0;
    assert(c@.skip(0) =~= c@);
    while i < c.len() && 48 <= (c[i] as u32) && (c[i] as u32) <= 57
        invariant
            i <= c@.len(),
            component_value(c@) == fold_digits(c@.skip(i as int), acc),
        decreases c@.len() - i,
    {
        let d = ((c[i] as u32) - 48) as u64;
        let v: u128 = (acc as u128) * 10 + (d as u128);
        proof {
            assert(c@.skip(i as int)[0] == c@[i as int]);
            assert(c@.skip(i as int).drop_first() =~= c@.skip(i + 1));
        }
        acc = if v > (u64::MAX as u128) {
            u64::MAX
        } else {
            v as u64
        };
        i += 1;
    }
    if i < c.len() {
        assert(c@.skip(i as int)[0] == c@[i as int]);
    }
    acc
}

/// The numeric components of a version name.
pub fn version_key_exec(name: &str) -> (r: Vec<u64>)
    ensures
        r@ == version_key(name@),
{
    let chars = chars_of(name);
    let body = if chars.len() > 0 && chars[0] == 'v' {
        sub_chars(chars.as_slice(), 1, chars.len())
    } else {
        chars
    };
    assert(body@ =~= without_v(name@));
    let parts = split_on_exec(body.as_slice(), '.');
    let ghost views = split_on(without_v(name@), '.');
    let mut r: Vec<u64> = Vec::new();
    let mut i: usize = 0;
    while i < parts.len()
        invariant
            i <= parts@.len(),
            parts@.len() == views.len(),
            forall|k: int| 0 <= k < parts@.len() ==> #[trigger] parts@[k]@ == views[k],
            r@ =~= views.take(i as int).map_values(|p: Seq<char>| component_value(p)),
        decreases parts@.len() - i,
    {
        proof {
            assert(crate::text::char_views(parts@)[i as int] == parts@[i as int]@);
        }
        let v = component_value_exec(parts[i].as_slice());
        r.push(v);
        i += 1;
    }
    proof {
        assert forall|k: int| 0 <= k < parts@.len() implies #[trigger] parts@[k]@ == views[k] by {
            assert(crate::text::char_views(parts@)[k] == parts@[k]@);
        }
    }
    assert(views.take(i as int) =~= views);
    r
}

/// Whether `a` sorts strictly before `b` as sequences of numbers.
fn key_lt_exec(a: &[u64], b: &[u64]) -> (r: bool)
    ensures
        r == key_lt(a@, b@),
{
    let mut i: usize = 0;
    assert(a@.skip(0) =~= a@);
    assert(b@.skip(0) =~= b@);
    while i < a.len() && i < b.len() && a[i] == b[i]
        invariant
            i <= a@.len(),
            i <= b@.len(),
            key_lt(a@, b@) == key_lt(a@.skip(i as int), b@.skip(i as int)),
        decreases a@.len() - i,
    {
        proof {
            assert(a@.skip(i as int).drop_first() =~= a@.skip(i + 1));
            assert(b@.skip(i as int).drop_first() =~= b@.skip(i + 1));
        }
        i += 1;
    }
    if i == a.len() {
        i < b.len()
    } else if i == b.len() {
        false
    } else {
        a[i] < b[i]
    }
}

/// Whether version `a` is older than version `b`.
pub fn version_lt_exec(a: &str, b: &str) -> (r: bool)
    ensures
        r == version_lt(a@, b@),
{
    let ka = version_key_exec(a);
    let kb = version_key_exec(b);
    if key_lt_exec(ka.as_slice(), kb.as_slice()) {
        return true;
    }
    if key_lt_exec(kb.as_slice(), ka.as_slice()) {
        proof {
            lemma_key_lt_irreflexive(ka@);
        }
        return false;
    }
    proof {
        if ka@ != kb@ {
            lemma_key_lt_total(ka@, kb@);
        }
    }
    let ac = chars_of(a);
    let bc = chars_of(b);
    text_lt_exec(ac.as_slice(), bc.as_slice())
}

} // verus!
