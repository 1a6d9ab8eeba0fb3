use vstd::prelude::*;
use vstd::arithmetic::div_mod::lemma_div_denominator;
use vstd::arithmetic::power::{lemma_pow_positive, pow};
use vstd::string::*;
use std::collections::HashMap;
use crate::json::hex_str;

verus! {

broadcast use vstd::std_specs::hash::group_hash_axioms;

/// The lowercase hexadecimal digit for a value below sixteen.
pub open spec fn hex_digit(n: int) -> char {
    seq!['0', '1', '2', '3', '4', '5', '6', '7', '8', '9', 'a', 'b', 'c', 'd', 'e', 'f'][n]
}

/// Digit `i` (most significant first) of the thirty-two hex digits of a
/// 128-bit identifier.
pub open spec fn hex_nibble(id: u128, i: int) -> int {
    (id as int / pow(16, (31 - i) as nat)) % 16
}

/// The thirty-two lowercase hex digits of an identifier, most significant
/// digit first.
pub open spec fn hex_chars(id: u128) -> Seq<char> {
    Seq::new(32, |i: int| hex_digit(hex_nibble(id, i)))
}

/// The canonical text form of an identifier: the hyphenated lowercase hex
/// groups of eight, four, four, four and twelve digits.
pub open spec fn identifier_text_spec(id: u128) -> Seq<char> {
    let h = hex_chars(id);
    h.subrange(0, 8) + seq!['-'] + h.subrange(8, 12) + seq!['-'] + h.subrange(12, 16)
        + seq!['-'] + h.subrange(16, 20) + seq!['-'] + h.subrange(20, 32)
}

/// Relies on uuid's `Uuid::new_v4` to draw a freshly generated random
/// version-4 identifier; nothing is assumed about the value drawn.
#[verifier::external_body]
pub(crate) fn fresh_identifier() -> u128 {
    uuid::Uuid::new_v4().as_u128()
}

/// Render an identifier in its canonical text form, the hyphenated
/// lowercase hex rendering of the 128-bit value, most significant digit
/// first. The digits are produced least significant first, each prepended
/// to the text built so far.
pub(crate) fn identifier_text(id: u128) -> (r: String)
    ensures
        r@ == identifier_text_spec(id),
{
    let mut acc = String::new();
    let mut w: u128 = id;
    let mut j: usize = 0;
    proof {
        vstd::arithmetic::power::lemma_pow0(16);
        assert(hex_chars(id).skip(32) =~= Seq::<char>::empty());
    }
    while j < 32
        invariant
            j <= 32,
            acc@ == hex_chars(id).skip(32 - j as int),
            w as int == id as int / pow(16, j as nat),
        decreases 32 - j,
    {
        let d: u8 = (w % 16) as u8;
        proof {
            lemma_pow_positive(16, j as nat);
            assert(d as int == hex_nibble(id, 31 - j as int));
            assert(hex_chars(id)[31 - j as int] == hex_digit(d as int));
            assert(hex_chars(id).skip(31 - j as int) =~= seq![hex_chars(id)[31 - j as int]]
                + hex_chars(id).skip(32 - j as int));
        }
        let mut next = String::from_str(hex_str(d));
        next.append(acc.as_str());
        acc = next;
        proof {
            lemma_div_denominator(id as int, pow(16, j as nat), 16);
            vstd::arithmetic::power::lemma_pow_adds(16, j as nat, 1);
            vstd::arithmetic::power::lemma_pow1(16);
            assert(pow(16, (j + 1) as nat) == 16 * pow(16, j as nat));
            assert((w / 16) as int == id as int / pow(16, (j + 1) as nat));
        }
        w = w / 16;
        j = j + 1;
    }
    let h = acc.as_str();
    let mut r = String::from_str(h.substring_char(0, 8));
    r.append("-");
    r.append(h.substring_char(8, 12));
    r.append("-");
    r.append(h.substring_char(12, 16));
    r.append("-");
    r.append(h.substring_char(16, 20));
    r.append("-");
    r.append(h.substring_char(20, 32));
    proof {
        reveal_strlit("-");
        assert(r@ =~= identifier_text_spec(id));
    }
    r
}

/// If a record holds every key below `c`, it holds at least `c` entries.
proof fn lemma_prefix_in_dom<V>(m: Map<u128, V>, c: nat)
    requires
        m.dom().finite(),
        c <= u128::MAX,
        forall|j: nat| j < c ==> m.contains_key(#[trigger] (j as u128)),
    ensures
        c <= m.len(),
    decreases c,
{
    if c > 0 {
        let k = (c - 1) as u128;
        let m2 = m.remove(k);
        assert forall|j: nat| j < c - 1 implies m2.contains_key(#[trigger] (j as u128)) by {
            assert(m.contains_key(j as u128));
            assert(j as u128 != k);
        }
        lemma_prefix_in_dom(m2, (c - 1) as nat);
        assert(m.contains_key(k));
        assert(m2.dom() =~= m.dom().remove(k));
        vstd::set::axiom_set_remove_len(m.dom(), k);
    }
}

/// Draw an identifier that the given record does not hold. A colliding
/// random draw is statistically impossible, but freshness must hold on
/// every path, so a deterministic probe serves as fallback; it finds a free
/// key among the first `len + 1` candidates because the record holds only
/// `len` entries.
pub(crate) fn fresh_key<V>(used: &HashMap<u128, V>) -> (id: u128)
    ensures
        !used@.contains_key(id),
{
    let id = fresh_identifier();
    if !used.contains_key(&id) {
        return id;
    }
    let n = used.len();
    let mut c: usize = 0;
    loop
        invariant
            c <= n,
            n == used@.len(),
            forall|j: nat| j < c ==> used@.contains_key(#[trigger] (j as u128)),
        ensures
            !used@.contains_key(c as u128),
        decreases n - c,
    {
        if !used.contains_key(&(c as u128)) {
            break;
        }
        proof {
            assert forall|j: nat| j < c + 1 implies used@.contains_key(
                #[trigger] (j as u128),
            ) by {
                if j < c {
                } else {
                    assert(j == c);
                }
            }
            lemma_prefix_in_dom(used@, (c + 1) as nat);
        }
        c = c + 1;
    }
    c as u128
}

} // verus!
