//! Collecting what arrives in pieces.
use vstd::prelude::*;

verus! {

/// Adds a piece to a byte string that may grow up to `limit` bytes. Returns
/// whether it fit; what does not fit is not added.
pub fn accumulate(bytes: &mut Vec<u8>, piece: &[u8], limit: usize) -> (fits: bool)
    ensures
        fits == (old(bytes)@.len() + piece@.len() <= limit),
        final(bytes)@ == if fits {
            old(bytes)@ + piece@
        } else {
            old(bytes)@
        },
{
    if bytes.len() > limit || piece.len() > limit - bytes.len() {
        return false;
    }
    let mut i: usize = 0;
    assert(bytes@ =~= old(bytes)@ + piece@.take(0));
    while i < piece.len()
        invariant
            i <= piece.len(),
            bytes@ == old(bytes)@ + piece@.take(i as int),
        decreases piece.len() - i,
    {
        bytes.push(piece[i]);
        i += 1;
        assert(bytes@ =~= old(bytes)@ + piece@.take(i as int));
    }
    assert(piece@.take(i as int) =~= piece@);
    true
}

/// What pieces that all fit make up.
pub open spec fn joined(pieces: Seq<Seq<u8>>) -> Seq<u8>
    decreases pieces.len(),
{
    if pieces.len() == 0 {
        seq![]
    } else {
        joined(pieces.drop_last()) + pieces.last()
    }
}

/// What `accumulate` makes of one piece after the other: the bytes so far, or
/// nothing once a piece did not fit.
pub open spec fn collected(pieces: Seq<Seq<u8>>, limit: nat) -> Option<Seq<u8>>
    decreases pieces.len(),
{
    if pieces.len() == 0 {
        Some(seq![])
    } else {
        match collected(pieces.drop_last(), limit) {
            Some(bytes) if bytes.len() + pieces.last().len() <= limit => Some(
                bytes + pieces.last(),
            ),
            _ => None,
        }
    }
}

/// A transfer succeeds exactly if it is not larger than the limit, and then
/// nothing of it is lost.
pub proof fn transfers_are_limited(pieces: Seq<Seq<u8>>, limit: nat)
    ensures
        joined(pieces).len() <= limit ==> collected(pieces, limit) == Some(joined(pieces)),
        joined(pieces).len() > limit ==> collected(pieces, limit) is None,
    decreases pieces.len(),
{
    if pieces.len() > 0 {
        transfers_are_limited(pieces.drop_last(), limit);
    }
}

/// A piece is added whole at the end if it fits under the limit. Otherwise
/// nothing changes.
pub proof fn pieces_are_added_whole(bytes: &mut Vec<u8>, piece: &[u8], limit: usize, fits: bool)
    requires
        call_ensures(accumulate, (bytes, piece, limit), fits),
    ensures
        fits ==> final(bytes)@ == old(bytes)@ + piece@ && final(bytes)@.len() <= limit,
        !fits ==> final(bytes)@ == old(bytes)@ && old(bytes)@.len() + piece@.len() > limit,
{
}

} // verus!
