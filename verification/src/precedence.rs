//! The total order of locations: by path, then by line, then by column.
//! Paths are ordered as strings are, by the bytes of their UTF-8 form.

use vstd::prelude::*;
use vstd::string::StringSliceAdditionalSpecFns;
use vstd::utf8::{encode_utf8, encode_utf8_decode_utf8};

use crate::location::{Location, LocationView};

verus! {

/// Whether `a` and `b` hold the same bytes before index `k`.
pub open spec fn agree_before(a: Seq<u8>, b: Seq<u8>, k: int) -> bool {
    &&& 0 <= k <= a.len()
    &&& k <= b.len()
    &&& forall|i: int| 0 <= i < k ==> a[i] == b[i]
}

/// Whether `a` comes before `b` and index `k` shows it: the two agree before
/// `k`, and there `a` ends while `b` goes on, or `a` holds the smaller byte.
pub open spec fn precedes_at(a: Seq<u8>, b: Seq<u8>, k: int) -> bool {
    &&& agree_before(a, b, k)
    &&& k < b.len()
    &&& k < a.len() ==> a[k] < b[k]
}

/// Whether `a` comes strictly before `b` in the order of a dictionary.
pub open spec fn bytes_precede(a: Seq<u8>, b: Seq<u8>) -> bool {
    exists|k: int| precedes_at(a, b, k)
}

/// Of two byte strings at most one comes before the other, and none before
/// itself.
pub proof fn lemma_bytes_asymmetric(a: Seq<u8>, b: Seq<u8>)
    ensures
        !(bytes_precede(a, b) && bytes_precede(b, a)),
{
    if bytes_precede(a, b) && bytes_precede(b, a) {
        let k = choose|k: int| precedes_at(a, b, k);
        let m = choose|m: int| precedes_at(b, a, m);
        if k < m {
            assert(b[k] == a[k]);
        } else if m < k {
            assert(a[m] == b[m]);
        }
    }
}

/// What comes before something that comes before a third comes before the
/// third.
pub proof fn lemma_bytes_transitive(a: Seq<u8>, b: Seq<u8>, c: Seq<u8>)
    requires
        bytes_precede(a, b),
        bytes_precede(b, c),
    ensures
        bytes_precede(a, c),
{
    let k = choose|k: int| precedes_at(a, b, k);
    let m = choose|m: int| precedes_at(b, c, m);
    let least = if k <= m {
        k
    } else {
        m
    };
    assert(agree_before(a, c, least)) by {
        assert forall|i: int| 0 <= i < least implies a[i] == c[i] by {
            assert(a[i] == b[i]);
            assert(b[i] == c[i]);
        }
    }
    if k < m {
        assert(b[k] == c[k]);
    } else if m < k {
        assert(a[m] == b[m]);
    }
    assert(precedes_at(a, c, least));
}

/// The first index at or after `from` at which `a` and `b` differ, or at
/// which one of them ends.
pub open spec fn first_difference(a: Seq<u8>, b: Seq<u8>, from: int) -> int
    decreases a.len() - from,
{
    if from < 0 || from >= a.len() || from >= b.len() || a[from] != b[from] {
        from
    } else {
        first_difference(a, b, from + 1)
    }
}

/// Of two different byte strings one comes before the other.
pub proof fn lemma_bytes_total(a: Seq<u8>, b: Seq<u8>)
    ensures
        a == b || bytes_precede(a, b) || bytes_precede(b, a),
{
    lemma_first_difference(a, b, 0);
    let k = first_difference(a, b, 0);
    if k == a.len() && k == b.len() {
        assert(a =~= b);
    } else if k == a.len() {
        assert(precedes_at(a, b, k));
    } else if k == b.len() {
        assert(agree_before(b, a, k));
        assert(precedes_at(b, a, k));
    } else if a[k] < b[k] {
        assert(precedes_at(a, b, k));
    } else {
        assert(agree_before(b, a, k));
        assert(precedes_at(b, a, k));
    }
}

/// Two byte strings agree up to their first difference.
proof fn lemma_first_difference(a: Seq<u8>, b: Seq<u8>, from: int)
    requires
        agree_before(a, b, from),
    ensures
        agree_before(a, b, first_difference(a, b, from)),
        first_difference(a, b, from) == a.len() || first_difference(a, b, from) == b.len()
            || a[first_difference(a, b, from)] != b[first_difference(a, b, from)],
    decreases a.len() - from,
{
    if from < a.len() && from < b.len() && a[from] == b[from] {
        lemma_first_difference(a, b, from + 1);
    }
}

impl LocationView {
    /// Whether this location comes strictly before `other`: in a file whose
    /// path comes first or, within one file, on an earlier line or, within
    /// one line, at a smaller column.
    pub open spec fn precedes(self, other: LocationView) -> bool {
        if self.file_path == other.file_path {
            self.line < other.line || (self.line == other.line && self.column < other.column)
        } else {
            bytes_precede(encode_utf8(self.file_path), encode_utf8(other.file_path))
        }
    }
}

/// Of two locations at most one comes before the other, and none before
/// itself.
pub proof fn lemma_precedes_asymmetric(a: LocationView, b: LocationView)
    ensures
        !(a.precedes(b) && b.precedes(a)),
{
    lemma_bytes_asymmetric(encode_utf8(a.file_path), encode_utf8(b.file_path));
}

/// What comes before a location that comes before a third comes before the
/// third.
pub proof fn lemma_precedes_transitive(a: LocationView, b: LocationView, c: LocationView)
    requires
        a.precedes(b),
        b.precedes(c),
    ensures
        a.precedes(c),
{
    let (pa, pb, pc) = (encode_utf8(a.file_path), encode_utf8(b.file_path), encode_utf8(c.file_path));
    if a.file_path != b.file_path && b.file_path != c.file_path {
        lemma_bytes_transitive(pa, pb, pc);
        lemma_bytes_asymmetric(pa, pb);
    }
}

/// Of two different locations one comes before the other.
pub proof fn lemma_precedes_total(a: LocationView, b: LocationView)
    ensures
        a == b || a.precedes(b) || b.precedes(a),
{
    if a.file_path != b.file_path {
        encode_utf8_decode_utf8(a.file_path);
        encode_utf8_decode_utf8(b.file_path);
        lemma_bytes_total(encode_utf8(a.file_path), encode_utf8(b.file_path));
    }
}

/// What does not come before a location that does not come before a third
/// does not come before the third.
pub proof fn lemma_not_precedes_transitive(a: LocationView, b: LocationView, c: LocationView)
    requires
        !a.precedes(b),
        !b.precedes(c),
    ensures
        !a.precedes(c),
{
    lemma_precedes_total(a, b);
    lemma_precedes_total(b, c);
    lemma_precedes_asymmetric(a, c);
    if a.precedes(c) {
        if b == a {
        } else if c == b {
        } else {
            lemma_precedes_transitive(c, b, a);
        }
    }
}

/// Whether `a` comes strictly before `b` in the order of a dictionary.
fn slice_precedes(a: &[u8], b: &[u8]) -> (before: bool)
    ensures
        before == bytes_precede(a@, b@),
{
    let mut index: usize = 0;
    while index < a.len() && index < b.len() && a[index] == b[index]
        invariant
            agree_before(a@, b@, index as int),
        decreases a.len() - index,
    {
        index = index + 1;
    }
    let before = index < b.len() && (index >= a.len() || a[index] < b[index]);
    proof {
        if before {
            assert(precedes_at(a@, b@, index as int));
        } else if bytes_precede(a@, b@) {
            let k = choose|k: int| precedes_at(a@, b@, k);
            if k < index {
                assert(a@[k] == b@[k]);
            } else if index < k {
                assert(a@[index as int] == b@[index as int]);
            }
        }
    }
    before
}

impl Location {
    /// Whether this location comes strictly before `other`.
    pub fn precedes(&self, other: &Location) -> (before: bool)
        ensures
            before == self@.precedes(other@),
    {
        if self.file_path == other.file_path {
            self.line < other.line || (self.line == other.line && self.column < other.column)
        } else {
            slice_precedes(self.file_path.as_str().as_bytes(), other.file_path.as_str().as_bytes())
        }
    }
}

} // verus!
