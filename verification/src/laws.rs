//! Laws that relate the piece operations to one another.

use vstd::prelude::*;

use crate::block::Block;
use crate::piece::{rot_block, spec_collides, spec_is_blocked, spec_rotate};

verus! {

/// Collision between two pieces is symmetric: a block of `a` coincides with a
/// block of `b` exactly when a block of `b` coincides with a block of `a`. In
/// particular, when a trial-moved piece collides with a settled piece, the
/// settled piece reports the shared block as blocked as well.
pub proof fn lemma_collision_symmetric(a: Seq<Block>, b: Seq<Block>)
    ensures
        spec_collides(a, b) == spec_collides(b, a),
{
    if spec_collides(a, b) {
        let i = choose|i: int| 0 <= i < a.len() && spec_is_blocked(b, #[trigger] a[i]);
        let j = choose|j: int| 0 <= j < b.len() && b[j] == a[i];
        assert(spec_is_blocked(a, b[j]));
        assert(spec_collides(b, a));
    }
    if spec_collides(b, a) {
        let i = choose|i: int| 0 <= i < b.len() && spec_is_blocked(a, #[trigger] b[i]);
        let j = choose|j: int| 0 <= j < a.len() && a[j] == b[i];
        assert(spec_is_blocked(b, a[j]));
        assert(spec_collides(a, b));
    }
}

/// Four quarter turns are the identity: rotating any non-empty piece whose
/// blocks lie in a moderate band around the board four times returns every
/// block to its original position.
pub proof fn lemma_rotate_four_identity(s: Seq<Block>)
    requires
        s.len() > 0,
        forall|i: int|
            0 <= i < s.len() ==> -1000 <= (#[trigger] s[i]).x <= 1000 && -1000 <= (
            #[trigger] s[i]).y <= 1000,
    ensures
        spec_rotate(spec_rotate(spec_rotate(spec_rotate(s)))) == s,
{
    let p = s[0];
    let s1 = spec_rotate(s);
    let s2 = spec_rotate(s1);
    let s3 = spec_rotate(s2);
    let s4 = spec_rotate(s3);
    assert(s1[0] == rot_block(p, p));
    assert(s1[0] == p);
    assert(s2[0] == p);
    assert(s3[0] == p);
    assert forall|i: int| 0 <= i < s.len() implies #[trigger] s4[i] == s[i] by {
        let b = s[i];
        let b1 = rot_block(p, b);
        let b2 = rot_block(p, b1);
        let b3 = rot_block(p, b2);
        let b4 = rot_block(p, b3);
        assert(s1[i] == b1);
        assert(s2[i] == b2);
        assert(s3[i] == b3);
        assert(s4[i] == b4);
        assert(b1.x == p.x + b.y - p.y && b1.y == p.y - (b.x - p.x));
        assert(b2.x == p.x + b1.y - p.y && b2.y == p.y - (b1.x - p.x));
        assert(b4 == b);
    }
    assert(s4 =~= s);
}

} // verus!
