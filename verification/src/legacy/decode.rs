//! Reconstructing native snapshots out of full ones and differences.
use crate::legacy::snapshot::{SnapshotError, Snapshots};
use crate::legacy::world::Snapshot;
use crate::tables::{newest, trim};
use std::io::Read;
use vstd::prelude::*;
use vstd::slice::slice_to_vec;

verus! {

/// The most bytes that a snapshot may have.
pub const MAX_SNAPSHOT: usize = 0x40_0000;

/// The number of snapshots that are kept for later differences.
pub const MAX_BASES: usize = 32;

/// What zstd decompresses `data` to with the given dictionary, when all of
/// it is read; nothing if the data is damaged or cut off.
pub uninterp spec fn decompressed(data: Seq<u8>, dictionary: Seq<u8>) -> Option<Seq<u8>>;

/// Reads at most `limit` bytes from a `zstd::Decoder` with a dictionary.
///
/// Trusted: intact data gives the first `limit` bytes of its contents. Of
/// damaged data nothing is said, except that a result can only come from
/// stopping at the limit, before the damage was met.
#[verifier::external_body]
fn decompress(data: &[u8], dictionary: &Vec<u8>, limit: usize) -> (r: Option<Vec<u8>>)
    ensures
        match decompressed(data@, dictionary@) {
            Some(full) => r matches Some(bytes) && bytes@ == full.take(
                if full.len() < limit {
                    full.len() as int
                } else {
                    limit as int
                },
            ),
            None => r matches Some(bytes) ==> bytes@.len() == limit,
        },
{
    let mut bytes = Vec::new();
    let decoder = zstd::Decoder::with_dictionary(data, dictionary).ok()?;
    decoder.take(limit as u64).read_to_end(&mut bytes).ok()?;
    Some(bytes)
}

/// The bytes of a snapshot with its id and tick.
#[derive(Clone, Debug, PartialEq, Eq)]
pub struct Packed {
    pub id: u64,
    pub tick: u64,
    pub bytes: Vec<u8>,
}

/// Why a difference of `len` bytes on top of a base cannot be accepted.
pub open spec fn difference_error(base: u64, base_tick: u64, id: u64, tick: u64, len: int) -> Option<
    SnapshotError,
> {
    if base + id > u64::MAX {
        Some(SnapshotError::IdOverflow)
    } else if base_tick + tick > u64::MAX {
        Some(SnapshotError::TickOverflow)
    } else if len > MAX_SNAPSHOT {
        Some(SnapshotError::TooLarge)
    } else {
        None
    }
}

/// The snapshots that are kept after one was read.
pub open spec fn bases_after(
    bases: Map<u64, (u64, Vec<u8>)>,
    packed: Packed,
    keep: bool,
    after: Map<u64, (u64, Vec<u8>)>,
) -> bool {
    if keep {
        newest(bases.insert(packed.id, (packed.tick, packed.bytes)), after, MAX_BASES as nat)
    } else {
        after == bases
    }
}

/// A snapshot with this id is newer than all before.
pub open spec fn is_newer(latest: Option<u64>, id: u64) -> bool {
    latest matches Some(latest) ==> id > latest
}

/// `r` is the answer to a snapshot that came whole or as a difference. Of
/// damaged data it is an error, and which one can depend on how far it was
/// read.
pub open spec fn unpacks(
    bases: Map<u64, (u64, Vec<u8>)>,
    data: Seq<u8>,
    diff: Option<u64>,
    id: u64,
    tick: u64,
    r: Result<Option<Packed>, SnapshotError>,
) -> bool {
    match diff {
        None => if data.len() > MAX_SNAPSHOT {
            r == Err::<Option<Packed>, SnapshotError>(SnapshotError::TooLarge)
        } else {
            r matches Ok(Some(p)) && p.id == id && p.tick == tick && p.bytes@ == data
        },
        Some(base) => if !bases.contains_key(base) {
            r == Ok::<Option<Packed>, SnapshotError>(None)
        } else {
            let (base_tick, dictionary) = bases[base];
            match decompressed(data, dictionary@) {
                Some(full) => match difference_error(
                    base,
                    base_tick,
                    id,
                    tick,
                    full.len() as int,
                ) {
                    Some(error) => r == Err::<Option<Packed>, SnapshotError>(error),
                    None => r matches Ok(Some(p)) && p.id == base + id && p.tick
                        == base_tick + tick && p.bytes@ == full,
                },
                None => r matches Err(error) && (error == SnapshotError::Compression
                    || Some(error) == difference_error(
                    base,
                    base_tick,
                    id,
                    tick,
                    MAX_SNAPSHOT + 1,
                )),
            }
        },
    }
}

/// `r` and `after` are the answer to a parsed snapshot.
pub open spec fn accepts(
    before: Snapshots,
    packed: Packed,
    parsed: Option<(Snapshot, usize)>,
    keep: bool,
    r: Result<Option<(u64, Snapshot)>, SnapshotError>,
    after: Snapshots,
) -> bool {
    &&& match parsed {
        None => r == Err::<Option<(u64, Snapshot)>, SnapshotError>(
            SnapshotError::Encoding,
        ) && after == before,
        Some((snapshot, consumed)) => if consumed != packed.bytes@.len() {
            &&& r == Err::<Option<(u64, Snapshot)>, SnapshotError>(
                SnapshotError::TrailingBytes,
            )
            &&& after == before
        } else {
            &&& bases_after(before.bases@, packed, keep, after.bases@)
            &&& if is_newer(before.latest_id, packed.id) {
                &&& r == Ok::<Option<(u64, Snapshot)>, SnapshotError>(
                    Some((packed.tick, snapshot)),
                )
                &&& after.latest_tick == packed.tick
                &&& after.latest_id == Some(packed.id)
            } else {
                &&& r == Ok::<Option<(u64, Snapshot)>, SnapshotError>(None)
                &&& after.latest_tick == before.latest_tick
                &&& after.latest_id == before.latest_id
            }
        },
    }
    &&& after == (Snapshots {
        bases: after.bases,
        latest_tick: after.latest_tick,
        latest_id: after.latest_id,
        ..before
    })
}

/// The snapshot that a difference leads to, if its bytes are those that it
/// decompressed to.
pub fn difference(base: u64, base_tick: u64, id: u64, tick: u64, bytes: Option<Vec<u8>>) -> (r:
    Result<Packed, SnapshotError>)
    ensures
        match bytes {
            None => r == Err::<Packed, SnapshotError>(SnapshotError::Compression),
            Some(bytes) => match difference_error(base, base_tick, id, tick, bytes@.len() as int) {
                Some(error) => r == Err::<Packed, SnapshotError>(error),
                None => r matches Ok(p) && p.id == base + id && p.tick == base_tick + tick
                    && p.bytes@ == bytes@,
            },
        },
{
    let bytes = match bytes {
        Some(bytes) => bytes,
        None => {
            return Err(SnapshotError::Compression);
        },
    };
    let id: u64 = match base.checked_add(id) {
        Some(id) => id,
        None => {
            return Err(SnapshotError::IdOverflow);
        },
    };
    let tick: u64 = match base_tick.checked_add(tick) {
        Some(tick) => tick,
        None => {
            return Err(SnapshotError::TickOverflow);
        },
    };
    if bytes.len() > MAX_SNAPSHOT {
        return Err(SnapshotError::TooLarge);
    }
    Ok(Packed { id, tick, bytes })
}

/// `r` and `after` are the answer to a snapshot that came whole or as a
/// difference, of which `packed` was unpacked and, if that is a snapshot,
/// `parsed` was read.
pub open spec fn decodes(
    before: Snapshots,
    data: Seq<u8>,
    diff: Option<u64>,
    id: u64,
    tick: u64,
    keep: bool,
    packed: Result<Option<Packed>, SnapshotError>,
    parsed: Option<(Snapshot, usize)>,
    r: Result<Option<(u64, Snapshot)>, SnapshotError>,
    after: Snapshots,
) -> bool {
    &&& unpacks(before.bases@, data, diff, id, tick, packed)
    &&& match packed {
        Err(error) => r == Err::<Option<(u64, Snapshot)>, SnapshotError>(error) && after == before,
        Ok(None) => r == Ok::<Option<(u64, Snapshot)>, SnapshotError>(None) && after == before,
        Ok(Some(packed)) => accepts(before, packed, parsed, keep, r, after),
    }
}

impl Snapshots {
    /// The bytes of a snapshot that came whole or as a difference. A
    /// difference to a snapshot that is not there is passed over.
    pub fn unpack(&self, data: &[u8], diff: Option<u64>, id: u64, tick: u64) -> (r: Result<
        Option<Packed>,
        SnapshotError,
    >)
        ensures
            unpacks(self.bases@, data@, diff, id, tick, r),
    {
        match diff {
            None => {
                if data.len() > MAX_SNAPSHOT {
                    return Err(SnapshotError::TooLarge);
                }
                Ok(Some(Packed { id, tick, bytes: slice_to_vec(data) }))
            },
            Some(base) => {
                let (base_tick, dictionary) = match self.bases.get(&base) {
                    Some(entry) => (entry.0, &entry.1),
                    None => {
                        return Ok(None);
                    },
                };
                let bytes = decompress(data, dictionary, MAX_SNAPSHOT + 1);
                proof {
                    let full = decompressed(data@, dictionary@)->0;
                    assert(full.take(full.len() as int) =~= full);
                }
                match difference(base, base_tick, id, tick, bytes) {
                    Ok(packed) => Ok(Some(packed)),
                    Err(error) => Err(error),
                }
            },
        }
    }

    /// Takes note of a snapshot that was read out of its bytes: `parsed` is
    /// the snapshot with the number of bytes that it took. Returns its tick
    /// and the snapshot if it is newer than all before.
    pub fn accept(
        &mut self,
        packed: Packed,
        parsed: Option<(Snapshot, usize)>,
        keep: bool,
    ) -> (r: Result<Option<(u64, Snapshot)>, SnapshotError>)
        ensures
            accepts(*old(self), packed, parsed, keep, r, *final(self)),
    {
        let (snapshot, consumed) = match parsed {
            Some(parsed) => parsed,
            None => {
                return Err(SnapshotError::Encoding);
            },
        };
        if consumed != packed.bytes.len() {
            return Err(SnapshotError::TrailingBytes);
        }
        let id = packed.id;
        let tick = packed.tick;
        if keep {
            self.bases.insert(id, (tick, packed.bytes));
            trim(&mut self.bases, MAX_BASES);
        }
        let newer = match self.latest_id {
            Some(latest) => id > latest,
            None => true,
        };
        if !newer {
            return Ok(None);
        }
        self.latest_tick = tick;
        self.latest_id = Some(id);
        Ok(Some((tick, snapshot)))
    }

    /// Reads a snapshot that came whole or as a difference. `parse` reads the
    /// snapshot's own encoding.
    pub fn decode<P: Fn(&Vec<u8>) -> Option<(Snapshot, usize)>>(
        &mut self,
        data: &[u8],
        diff: Option<u64>,
        id: u64,
        tick: u64,
        keep: bool,
        parse: P,
    ) -> (r: Result<Option<(u64, Snapshot)>, SnapshotError>)
        requires
            forall|bytes: &Vec<u8>| parse.requires((bytes,)),
        ensures
            exists|
                packed: Result<Option<Packed>, SnapshotError>,
                parsed: Option<(Snapshot, usize)>,
            |
                {
                    &&& #[trigger] decodes(
                        *old(self),
                        data@,
                        diff,
                        id,
                        tick,
                        keep,
                        packed,
                        parsed,
                        r,
                        *final(self),
                    )
                    &&& packed matches Ok(Some(packed)) ==> parse.ensures(
                        (&packed.bytes,),
                        parsed,
                    )
                },
    {
        let unpacked = self.unpack(data, diff, id, tick);
        let ghost packed = unpacked;
        let ghost mut read: Option<(Snapshot, usize)> = None;
        let r = match unpacked {
            Err(error) => Err(error),
            Ok(None) => Ok(None),
            Ok(Some(packed)) => {
                let parsed = parse(&packed.bytes);
                proof {
                    read = parsed;
                }
                self.accept(packed, parsed, keep)
            },
        };
        assert(decodes(*old(self), data@, diff, id, tick, keep, packed, read, r, *self));
        r
    }
}

/// A snapshot that came whole is taken as it is, up to four mebibytes.
pub proof fn whole_snapshots_are_taken_as_they_are(
    s: &Snapshots,
    data: &[u8],
    id: u64,
    tick: u64,
    r: Result<Option<Packed>, SnapshotError>,
)
    requires
        call_ensures(Snapshots::unpack, (s, data, None::<u64>, id, tick), r),
    ensures
        data@.len() <= 4 * 1024 * 1024 ==> (r matches Ok(Some(p)) && p.id == id && p.tick == tick
            && p.bytes@ == data@),
        data@.len() > 4 * 1024 * 1024 ==> (r matches Err(e) && e == SnapshotError::TooLarge),
{
}

/// A difference counts its id and tick from its base, whose bytes are the
/// dictionary. Without the base it is passed over.
pub proof fn differences_count_from_their_base(
    s: &Snapshots,
    data: &[u8],
    base: u64,
    id: u64,
    tick: u64,
    r: Result<Option<Packed>, SnapshotError>,
)
    requires
        call_ensures(Snapshots::unpack, (s, data, Some(base), id, tick), r),
    ensures
        !s.bases@.contains_key(base) ==> r == Ok::<Option<Packed>, SnapshotError>(None),
        s.bases@.contains_key(base) ==> {
            let at = s.bases@[base].0;
            let full = decompressed(data@, s.bases@[base].1@);
            &&& r matches Ok(Some(p)) ==> p.id == base + id && p.tick == at + tick && full == Some(
                p.bytes@,
            ) && p.bytes@.len() <= 4 * 1024 * 1024
            &&& !(r matches Ok(None))
            &&& full matches Some(bytes) ==> (r is Ok <==> base + id <= u64::MAX && at + tick
                <= u64::MAX && bytes.len() <= 4 * 1024 * 1024)
            &&& full is None ==> r is Err
            &&& full is Some && base + id > u64::MAX ==> (r matches Err(e) && e
                == SnapshotError::IdOverflow)
            &&& full is Some && base + id <= u64::MAX && at + tick > u64::MAX ==> (r matches Err(e)
                && e == SnapshotError::TickOverflow)
        },
{
}

/// What a difference decompressed to is taken with the sums of the ids and of
/// the ticks.
pub proof fn difference_adds_ids_and_ticks(
    base: u64,
    base_tick: u64,
    id: u64,
    tick: u64,
    bytes: Option<Vec<u8>>,
    r: Result<Packed, SnapshotError>,
)
    requires
        call_ensures(difference, (base, base_tick, id, tick, bytes), r),
    ensures
        r is Ok <==> bytes is Some && base + id <= u64::MAX && base_tick + tick <= u64::MAX
            && bytes->0@.len() <= 4 * 1024 * 1024,
        r matches Ok(p) ==> p.id == base + id && p.tick == base_tick + tick && p.bytes@
            == bytes->0@,
        bytes is None ==> (r matches Err(e) && e == SnapshotError::Compression),
        bytes is Some && r is Err && base + id > u64::MAX ==> (r matches Err(e) && e
            == SnapshotError::IdOverflow),
        bytes is Some && base + id <= u64::MAX && base_tick + tick > u64::MAX ==> (r matches Err(e)
            && e == SnapshotError::TickOverflow),
        bytes is Some && base + id <= u64::MAX && base_tick + tick <= u64::MAX && r is Err
            ==> (r matches Err(e) && e == SnapshotError::TooLarge),
{
}

/// A snapshot that was read whole is handed on exactly if it is newer than
/// all before, with its own tick. What is damaged changes nothing.
pub proof fn only_newer_snapshots_are_handed_on(
    s: &mut Snapshots,
    packed: Packed,
    parsed: Option<(Snapshot, usize)>,
    keep: bool,
    r: Result<Option<(u64, Snapshot)>, SnapshotError>,
)
    requires
        call_ensures(Snapshots::accept, (s, packed, parsed, keep), r),
    ensures
        r is Ok <==> (parsed matches Some((_, consumed)) && consumed == packed.bytes@.len()),
        parsed is None ==> (r matches Err(e) && e == SnapshotError::Encoding),
        parsed is Some && r is Err ==> (r matches Err(e) && e == SnapshotError::TrailingBytes),
        r is Err ==> *final(s) == *old(s),
        r is Ok ==> {
            let newer = old(s).latest_id is None || old(s).latest_id->0 < packed.id;
            &&& newer ==> (r matches Ok(Some((at, got))) && at == packed.tick && (parsed matches Some((
                snapshot,
                _,
            )) && got == snapshot) && final(s).latest_id == Some(packed.id) && final(s).latest_tick == packed.tick)
            &&& !newer ==> (r matches Ok(None) && final(s).latest_id == old(s).latest_id
                && final(s).latest_tick == old(s).latest_tick)
        },
        final(s).players@ == old(s).players@,
        final(s).player_seen@ == old(s).player_seen@,
        final(s).objects@ == old(s).objects@,
        final(s).race == old(s).race,
        final(s).game_config == old(s).game_config,
{
}

/// A snapshot that is to be kept is there as a base, with its tick and bytes,
/// unless 32 newer ones are. One that is not to be kept changes no base.
pub proof fn kept_snapshots_become_bases(
    s: &mut Snapshots,
    packed: Packed,
    snapshot: Snapshot,
    keep: bool,
    r: Result<Option<(u64, Snapshot)>, SnapshotError>,
    other: u64,
)
    requires
        call_ensures(
            Snapshots::accept,
            (s, packed, Some((snapshot, packed.bytes@.len() as usize)), keep),
            r,
        ),
        packed.bytes@.len() <= usize::MAX,
        old(s).bases@.dom().finite(),
        old(s).bases@.len() <= 32,
    ensures
        !keep ==> final(s).bases@ == old(s).bases@,
        final(s).bases@.len() <= 32,
        keep && final(s).bases@.contains_key(packed.id) ==> final(s).bases@[packed.id].0
            == packed.tick && final(s).bases@[packed.id].1@ == packed.bytes@,
        keep && old(s).bases@.len() < 32 ==> final(s).bases@.contains_key(packed.id),
        keep && (forall|k: u64| #[trigger] old(s).bases@.contains_key(k) ==> k < packed.id)
            ==> final(s).bases@.contains_key(packed.id),
        other != packed.id && final(s).bases@.contains_key(other) ==> old(
            s,
        ).bases@.contains_key(other) && final(s).bases@[other] == old(s).bases@[other],
        other != packed.id && old(s).bases@.contains_key(other) && old(s).bases@.len() < 32
            ==> final(s).bases@.contains_key(other),
{
    let before = old(s).bases@;
    let after = final(s).bases@;
    if keep {
        let all = before.insert(packed.id, (packed.tick, packed.bytes));
        assert(all.contains_key(packed.id));
        if all.len() > 32 && !after.contains_key(packed.id) {
            assert(after.len() == 32);
            let j = after.dom().choose();
            assert(after.dom().contains(j)) by {
                if after.dom() =~= Set::<u64>::empty() {
                    assert(after.dom().len() == 0);
                }
            }
            assert(after.contains_key(j));
            assert(all.contains_key(j));
            assert(packed.id < j);
        }
        if other != packed.id && after.contains_key(other) {
            assert(all.contains_key(other));
        }
    }
}

} // verus!
