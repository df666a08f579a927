//! The hash map and the clock: what is believed of code outside this library.
use ahash::AHashMap;
use ahash::RandomState;
use std::time::Duration;
use std::time::UNIX_EPOCH;
use vstd::prelude::*;

verus! {

/// `ahash::AHashMap`, as an opaque type.
#[verifier::external_type_specification]
#[verifier::external_body]
#[verifier::reject_recursive_types(K)]
#[verifier::reject_recursive_types(V)]
#[verifier::reject_recursive_types(S)]
pub struct ExAHashMap<K, V, S>(AHashMap<K, V, S>);

/// `ahash::RandomState`, the hasher of an [`AHashMap`], as an opaque type.
#[verifier::external_type_specification]
#[verifier::external_body]
pub struct ExRandomState(RandomState);

/// What a map from ids to slots holds.
pub uninterp spec fn slots(index: AHashMap<String, usize>) -> Map<Seq<char>, usize>;

/// `AHashMap::new`: a map that holds nothing.
#[verifier::external_body]
pub(crate) fn index_new() -> (index: AHashMap<String, usize>)
    ensures
        (slots(index) == Map::<Seq<char>, usize>::empty()),
{
    AHashMap::new()
}

/// `AHashMap::get`: the slot of `id`, or `None` if the map holds none for it.
#[verifier::external_body]
pub(crate) fn index_get(index: &AHashMap<String, usize>, id: &str) -> (slot: Option<usize>)
    ensures
        slot == (if slots(*index).contains_key(id@) {
            Some(slots(*index)[id@])
        } else {
            None
        }),
{
    index.get(id).copied()
}

/// `AHashMap::insert`: afterwards the map holds `slot` for `id`, and for every other id what
/// it held before.
#[verifier::external_body]
pub(crate) fn index_insert(index: &mut AHashMap<String, usize>, id: String, slot: usize)
    ensures
        slots(*final(index)) == slots(*old(index)).insert(id@, slot),
{
    index.insert(id, slot);
}

/// `AHashMap::len`: the number of ids that the map holds a slot for.
#[verifier::external_body]
pub(crate) fn index_len(index: &AHashMap<String, usize>) -> (n: usize)
    ensures
        n == slots(*index).dom().len(),
{
    index.len()
}

/// `SystemTime::elapsed` of the Unix epoch: seconds and nanoseconds since then, or `None` if
/// the clock stands before it. Nothing is claimed of the time but that the nanoseconds stay
/// below one second.
#[verifier::external_body]
pub(crate) fn since_epoch() -> (reading: Option<(u64, u32)>)
    ensures
        clock_reading(reading),
{
    UNIX_EPOCH.elapsed().ok().map(|d| (d.as_secs(), d.subsec_nanos()))
}

/// Bits of the floating-point number of seconds that a duration of `secs` seconds and
/// `nanos` nanoseconds has.
pub uninterp spec fn seconds_bits(secs: u64, nanos: u32) -> u64;

/// `Duration::as_secs_f64`: a duration as a floating-point number of seconds, here by its
/// bits.
#[verifier::external_body]
fn duration_bits(secs: u64, nanos: u32) -> (bits: u64)
    requires
        nanos < 1_000_000_000,
    ensures
        bits == seconds_bits(secs, nanos),
{
    Duration::new(secs, nanos).as_secs_f64().to_bits()
}

/// What a clock can read: nothing, if it stands before the epoch, or seconds and nanoseconds
/// since then, with the nanoseconds below one second.
pub open spec fn clock_reading(reading: Option<(u64, u32)>) -> bool {
    reading matches Some(r) ==> r.1 < 1_000_000_000
}

/// The reading is one that the clock gave to a call of `since_epoch`.
pub closed spec fn clock_returned(reading: Option<(u64, u32)>) -> bool {
    call_ensures(since_epoch, (), reading)
}

/// A reading counts as one of the clock only if a call of `since_epoch` can return it: no
/// other reading can be shown to be one.
pub(crate) proof fn readings_come_from_the_clock(reading: Option<(u64, u32)>)
    ensures
        clock_returned(reading) <==> call_ensures(since_epoch, (), reading),
        clock_returned(reading) ==> (reading matches Some(r) ==> r.1 < 1_000_000_000),
{
}

/// The timestamp of a clock reading: its seconds, or zero if the clock stands before the
/// epoch.
pub open spec fn timestamp(reading: Option<(u64, u32)>) -> u64 {
    match reading {
        Some((secs, nanos)) => seconds_bits(secs, nanos),
        None => 0,
    }
}

/// The timestamp of a clock reading.
pub fn stamp(reading: Option<(u64, u32)>) -> (at: u64)
    requires
        clock_reading(reading),
    ensures
        at == timestamp(reading),
        match reading {
            Some(r) => at == seconds_bits(r.0, r.1),
            None => at == 0,
        },
{
    match reading {
        Some((secs, nanos)) => duration_bits(secs, nanos),
        None => 0,
    }
}

/// The current time, in seconds since the Unix epoch, as the bits of a floating-point
/// number.
pub fn now() -> (at: u64)
    ensures
        exists|reading: Option<(u64, u32)>|
            {
                &&& clock_returned(reading)
                &&& clock_reading(reading)
                &&& at == #[trigger] timestamp(reading)
            },
{
    let reading = since_epoch();
    let at: u64 = stamp(reading);
    proof {
        readings_come_from_the_clock(reading);
    }
    assert(at == timestamp(reading));
    at
}

} // verus!
