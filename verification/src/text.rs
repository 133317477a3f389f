//! Equality and ordering of text.

use vstd::prelude::*;
use vstd::utf8::encode_utf8;

verus! {

/// What a list of strings holds.
pub open spec fn texts(strings: Seq<String>) -> Seq<Seq<char>> {
    strings.map_values(|string: String| string@)
}

/// What an optional string holds.
pub open spec fn optional_text(string: Option<String>) -> Option<Seq<char>> {
    match string {
        Some(s) => Some(s@),
        None => None,
    }
}

/// `a` comes before `b` when the first difference is in favour of `a`, or when `a` is a proper
/// prefix of `b`.
pub open spec fn bytes_precede(a: Seq<u8>, b: Seq<u8>) -> bool {
    exists|k: int| #[trigger] first_difference(a, b, k) && (k < b.len() && (k == a.len() || a[k] < b[k]))
}

/// `a` and `b` agree below `k`, and one of them ends at `k` or they differ there.
pub open spec fn first_difference(a: Seq<u8>, b: Seq<u8>, k: int) -> bool {
    &&& 0 <= k <= a.len()
    &&& k <= b.len()
    &&& forall|i: int| 0 <= i < k ==> a[i] == b[i]
    &&& k < a.len() && k < b.len() ==> a[k] != b[k]
}

/// Texts are ordered by the bytes of their UTF-8 encoding.
pub open spec fn text_precedes(a: Seq<char>, b: Seq<char>) -> bool {
    bytes_precede(encode_utf8(a), encode_utf8(b))
}

proof fn lemma_encoding_is_injective(a: Seq<char>, b: Seq<char>)
    requires
        encode_utf8(a) == encode_utf8(b),
    ensures
        a == b,
{
    vstd::utf8::encode_utf8_decode_utf8(a);
    vstd::utf8::encode_utf8_decode_utf8(b);
}

/// The length of the longest common prefix.
fn common_prefix(a: &[u8], b: &[u8]) -> (k: usize)
    ensures
        first_difference(a@, b@, k as int),
        k == a@.len() || k == b@.len() || a@[k as int] != b@[k as int],
{
    let mut k: usize = 0;
    while k < a.len() && k < b.len() && a[k] == b[k]
        invariant
            k <= a@.len(),
            k <= b@.len(),
            forall|i: int| 0 <= i < k ==> a@[i] == b@[i],
        decreases a@.len() - k,
    {
        k = k + 1;
    }
    k
}

/// Whether two texts hold the same characters.
pub fn same_text(a: &str, b: &str) -> (same: bool)
    ensures
        same == (a@ == b@),
{
    let x = a.as_bytes();
    let y = b.as_bytes();
    let k = common_prefix(x, y);
    let same = k == x.len() && k == y.len();
    proof {
        if same {
            assert(x@ =~= y@);
            lemma_encoding_is_injective(a@, b@);
        }
    }
    same
}

/// Whether `a` comes strictly before `b`.
pub fn precedes(a: &str, b: &str) -> (before: bool)
    ensures
        before == text_precedes(a@, b@),
{
    let x = a.as_bytes();
    let y = b.as_bytes();
    let k = common_prefix(x, y);
    let before = k < y.len() && (k == x.len() || x[k] < y[k]);
    proof {
        if !before {
            assert forall|j: int| #[trigger] first_difference(x@, y@, j) implies !(j < y@.len() && (j
                == x@.len() || x@[j] < y@[j])) by {
                assert(j == k) by {
                    if j < k {
                        assert(x@[j] == y@[j]);
                    } else if k < j {
                        assert(x@[k as int] == y@[k as int]);
                    }
                }
            }
        }
    }
    before
}

/// No text comes before itself.
pub proof fn lemma_text_order_irreflexive(a: Seq<char>)
    ensures
        !text_precedes(a, a),
{
}

/// The order is transitive.
pub proof fn lemma_text_order_transitive(a: Seq<char>, b: Seq<char>, c: Seq<char>)
    requires
        text_precedes(a, b),
        text_precedes(b, c),
    ensures
        text_precedes(a, c),
{
    let (x, y, z) = (encode_utf8(a), encode_utf8(b), encode_utf8(c));
    let i = choose|k: int| #[trigger] first_difference(x, y, k) && (k < y.len() && (k == x.len() || x[k] < y[k]));
    let j = choose|k: int| #[trigger] first_difference(y, z, k) && (k < z.len() && (k == y.len() || y[k] < z[k]));
    let k = if i < j { i } else { j };
    assert(first_difference(x, z, k));
}

/// Two different texts are ordered one way or the other.
pub proof fn lemma_text_order_total(a: Seq<char>, b: Seq<char>)
    requires
        a != b,
    ensures
        text_precedes(a, b) || text_precedes(b, a),
{
    let (x, y) = (encode_utf8(a), encode_utf8(b));
    let k = lemma_first_difference_exists(x, y, 0);
    assert(first_difference(y, x, k));
    if k == x.len() && k == y.len() {
        assert(x =~= y);
        lemma_encoding_is_injective(a, b);
    }
}

proof fn lemma_first_difference_exists(a: Seq<u8>, b: Seq<u8>, from: int) -> (k: int)
    requires
        0 <= from <= a.len(),
        from <= b.len(),
        forall|i: int| 0 <= i < from ==> a[i] == b[i],
    ensures
        first_difference(a, b, k),
    decreases a.len() - from,
{
    if from < a.len() && from < b.len() && a[from] == b[from] {
        lemma_first_difference_exists(a, b, from + 1)
    } else {
        from
    }
}

/// Each text comes strictly before those that follow it.
pub open spec fn strictly_sorted(list: Seq<Seq<char>>) -> bool {
    forall|i: int, j: int| 0 <= i < j < list.len() ==> text_precedes(#[trigger] list[i], #[trigger] list[j])
}

/// A strictly sorted list is determined by the texts in it.
pub proof fn lemma_strictly_sorted_is_unique(a: Seq<Seq<char>>, b: Seq<Seq<char>>)
    requires
        strictly_sorted(a),
        strictly_sorted(b),
        forall|text: Seq<char>| a.contains(text) <==> b.contains(text),
    ensures
        a == b,
    decreases a.len(),
{
    if a.len() == 0 {
        if b.len() > 0 {
            assert(b.contains(b[0]));
        }
    } else {
        assert(a.contains(a.last()));
        assert(b.len() > 0);
        assert(b.contains(b.last()));
        assert(a.last() == b.last()) by {
            let i = choose|i: int| 0 <= i < a.len() && a[i] == b.last();
            let j = choose|j: int| 0 <= j < b.len() && b[j] == a.last();
            if i < a.len() - 1 && j < b.len() - 1 {
                assert(text_precedes(a[i], a[a.len() - 1]));
                assert(text_precedes(b[j], b[b.len() - 1]));
                lemma_text_order_transitive(a.last(), b.last(), a.last());
                lemma_text_order_irreflexive(a.last());
            }
        }
        let (front_a, front_b) = (a.drop_last(), b.drop_last());
        assert forall|text: Seq<char>| front_a.contains(text) == front_b.contains(text) by {
            lemma_front_contains(a, text);
            lemma_front_contains(b, text);
        }
        lemma_strictly_sorted_is_unique(front_a, front_b);
        assert(a =~= front_a.push(a.last()));
        assert(b =~= front_b.push(b.last()));
    }
}

proof fn lemma_front_contains(list: Seq<Seq<char>>, text: Seq<char>)
    requires
        list.len() > 0,
        strictly_sorted(list),
    ensures
        list.drop_last().contains(text) == (list.contains(text) && text != list.last()),
{
    let front = list.drop_last();
    if list.contains(text) && text != list.last() {
        let i = choose|i: int| 0 <= i < list.len() && list[i] == text;
        assert(front[i] == text);
    }
    if front.contains(text) {
        let i = choose|i: int| 0 <= i < front.len() && front[i] == text;
        assert(list[i] == text);
        assert(text_precedes(list[i], list[list.len() - 1]));
        lemma_text_order_irreflexive(text);
    }
}

/// Of two texts whose encodings agree up to some byte, the one with the smaller byte there comes
/// first; a text comes before one that continues it.
pub proof fn law_first_different_byte_decides(a: Seq<char>, b: Seq<char>, k: int)
    requires
        0 <= k <= encode_utf8(a).len(),
        k < encode_utf8(b).len(),
        forall|i: int| 0 <= i < k ==> encode_utf8(a)[i] == encode_utf8(b)[i],
        k < encode_utf8(a).len() ==> encode_utf8(a)[k] < encode_utf8(b)[k],
    ensures
        text_precedes(a, b),
        !text_precedes(b, a),
{
    let (x, y) = (encode_utf8(a), encode_utf8(b));
    assert(first_difference(x, y, k));
    if text_precedes(b, a) {
        lemma_text_order_transitive(a, b, a);
        lemma_text_order_irreflexive(a);
    }
}

/// In a strictly sorted list, each text comes before the later ones, and none occurs twice.
pub proof fn law_strictly_sorted_list_is_in_order(list: Seq<Seq<char>>, i: int, j: int)
    requires
        strictly_sorted(list),
        0 <= i < j < list.len(),
    ensures
        text_precedes(list[i], list[j]),
        list[i] != list[j],
{
    lemma_text_order_irreflexive(list[i]);
}

} // verus!
