use crate::hardware_access::AccessError;
use crate::topology::{le_u64, read_u64};
use vstd::string::StringSliceAdditionalSpecFns;
use vstd::prelude::*;

verus! {

/// Bytes of the zero-padded function name that starts a driver call.
pub const FN_NAME_LENGTH: usize = 32;

/// Number of logical processors one affinity mask can address.
pub const AFFINITY_MASK_BITS: usize = 64;

/// The name field of a call: the first 31 bytes of the name, zero padded to
/// `FN_NAME_LENGTH` bytes (the last byte always stays zero).
pub open spec fn name_field(name: Seq<u8>) -> Seq<u8> {
    Seq::new(
        FN_NAME_LENGTH as nat,
        |i: int|
            if i < FN_NAME_LENGTH - 1 && i < name.len() {
                name[i]
            } else {
                0u8
            },
    )
}

/// Byte `k` (0 = least significant) of a word.
pub open spec fn le_byte(v: u64, k: u64) -> u8 {
    ((v >> ((8 * k) as u64)) & 0xFFu64) as u8
}

/// The eight little-endian bytes of a word.
pub open spec fn le_bytes(v: u64) -> Seq<u8> {
    seq![
        le_byte(v, 0),
        le_byte(v, 1),
        le_byte(v, 2),
        le_byte(v, 3),
        le_byte(v, 4),
        le_byte(v, 5),
        le_byte(v, 6),
        le_byte(v, 7),
    ]
}

/// The input words of a call, each as eight little-endian bytes.
pub open spec fn words_field(input: Seq<u64>) -> Seq<u8>
    decreases input.len(),
{
    if input.len() == 0 {
        Seq::empty()
    } else {
        words_field(input.drop_last()) + le_bytes(input.last())
    }
}

/// The input buffer of a driver function call.
pub open spec fn call_frame(name: Seq<u8>, input: Seq<u64>) -> Seq<u8> {
    name_field(name) + words_field(input)
}

proof fn lemma_words_field_len(input: Seq<u64>)
    ensures
        words_field(input).len() == 8 * input.len(),
    decreases input.len(),
{
    if input.len() > 0 {
        lemma_words_field_len(input.drop_last());
    }
}

fn push_le_bytes(frame: &mut Vec<u8>, v: u64)
    ensures
        final(frame)@ == old(frame)@ + le_bytes(v),
{
    let ghost start = frame@;
    let mut k: u64 = 0;
    while k < 8
        invariant
            k <= 8,
            frame@ == start + le_bytes(v).take(k as int),
        decreases 8 - k,
    {
        let byte = ((v >> (8 * k)) & 0xFF) as u8;
        proof {
            assert(le_bytes(v).take(k + 1) =~= le_bytes(v).take(k as int).push(byte));
        }
        frame.push(byte);
        k = k + 1;
    }
    assert(le_bytes(v).take(8) =~= le_bytes(v));
}

/// Builds the input buffer of a driver function call: the name field, then
/// each input word as eight little-endian bytes.
pub fn encode_call(name: &str, input: &[u64]) -> (frame: Vec<u8>)
    requires
        input@.len() <= (usize::MAX - FN_NAME_LENGTH) / 8,
    ensures
        frame@ == call_frame(name.spec_bytes(), input@),
        frame@.len() == FN_NAME_LENGTH + 8 * input@.len(),
{
    let bytes = name.as_bytes();
    let mut frame: Vec<u8> = Vec::new();
    let mut i: usize = 0;
    while i < FN_NAME_LENGTH
        invariant
            i <= FN_NAME_LENGTH,
            bytes@ == name.spec_bytes(),
            frame@ == name_field(bytes@).take(i as int),
        decreases FN_NAME_LENGTH - i,
    {
        let b = if i < FN_NAME_LENGTH - 1 && i < bytes.len() {
            bytes[i]
        } else {
            0u8
        };
        assert(name_field(bytes@).take(i + 1) =~= name_field(bytes@).take(i as int).push(b));
        frame.push(b);
        i = i + 1;
    }
    assert(name_field(bytes@).take(FN_NAME_LENGTH as int) =~= name_field(bytes@));
    let mut j: usize = 0;
    while j < input.len()
        invariant
            j <= input@.len(),
            bytes@ == name.spec_bytes(),
            frame@ == name_field(bytes@) + words_field(input@.take(j as int)),
        decreases input@.len() - j,
    {
        proof {
            assert(input@.take(j + 1).drop_last() =~= input@.take(j as int));
            assert(input@.take(j + 1).last() == input@[j as int]);
            assert(name_field(bytes@) + words_field(input@.take(j as int)) + le_bytes(input@[j as int])
                =~= name_field(bytes@) + words_field(input@.take(j + 1)));
        }
        push_le_bytes(&mut frame, input[j]);
        j = j + 1;
    }
    assert(input@.take(input@.len() as int) =~= input@);
    proof {
        lemma_words_field_len(input@);
    }
    frame
}

/// Reads `count` little-endian words from the output buffer of a call.
pub fn decode_words(output: &[u8], count: usize) -> (words: Vec<u64>)
    requires
        8 * count <= output@.len(),
    ensures
        words@ == Seq::new(count as nat, |i: int| le_u64(output@, 8 * i)),
{
    let n = output.len();
    let mut words: Vec<u64> = Vec::new();
    let mut i: usize = 0;
    while i < count
        invariant
            i <= count,
            n == output@.len(),
            8 * count <= n,
            words@ == Seq::new(i as nat, |k: int| le_u64(output@, 8 * k)),
        decreases count - i,
    {
        words.push(read_u64(output, 8 * i));
        assert(words@ =~= Seq::new((i + 1) as nat, |k: int| le_u64(output@, 8 * k)));
        i = i + 1;
    }
    words
}

/// The thread affinity mask that pins a thread to a logical processor of
/// group 0, or `None` when the processor lies outside the mask's 64 bits.
pub fn affinity_mask(logical_cpu: usize) -> (mask: Option<u64>)
    ensures
        match mask {
            Some(m) => logical_cpu < AFFINITY_MASK_BITS && m == 1u64 << (logical_cpu as u64),
            None => logical_cpu >= AFFINITY_MASK_BITS,
        },
{
    if logical_cpu >= AFFINITY_MASK_BITS {
        return None;
    }
    Some(1u64 << (logical_cpu as u64))
}

/// The frame of a driver call, made only when the module is loaded: without
/// the module the call is answered with `ModuleMissing` and nothing goes to
/// the device.
pub fn guarded_call_frame(loaded: bool, name: &str, input: &[u64]) -> (r: Result<
    Vec<u8>,
    AccessError,
>)
    requires
        loaded ==> input@.len() <= (usize::MAX - FN_NAME_LENGTH) / 8,
    ensures
        loaded ==> (r matches Ok(frame) && frame@ == call_frame(name.spec_bytes(), input@)),
        !loaded ==> r == Err::<Vec<u8>, AccessError>(AccessError::ModuleMissing),
{
    if !loaded {
        return Err(AccessError::ModuleMissing);
    }
    Ok(encode_call(name, input))
}

/// The answer of a driver call from whether the device call succeeded and
/// the output buffer it filled: the `count` output words, or `MsrFailed`
/// when the device call failed.
pub fn call_answer(ok: bool, output: &[u8], count: usize) -> (r: Result<Vec<u64>, AccessError>)
    requires
        8 * count <= output@.len(),
    ensures
        ok ==> (r matches Ok(words) && words@ == Seq::new(
            count as nat,
            |i: int| le_u64(output@, 8 * i),
        )),
        !ok ==> r == Err::<Vec<u64>, AccessError>(AccessError::MsrFailed),
{
    if !ok {
        return Err(AccessError::MsrFailed);
    }
    Ok(decode_words(output, count))
}

/// What an MSR read through the driver learns from outside.
#[derive(Debug, Clone, Copy, PartialEq, Eq)]
pub enum MsrReadEvent {
    /// A read is asked for on this logical processor.
    Begin(usize),
    /// Pinning the calling thread to the processor succeeded or not.
    Pinned(bool),
    /// The driver's read call answered: the first word it returned, or its error.
    Executed(Result<u64, AccessError>),
}

/// What an MSR read through the driver does next.
#[derive(Debug, Clone, Copy, PartialEq, Eq)]
pub enum MsrReadAction {
    /// Pin the calling thread to processor group 0 with this affinity mask,
    /// then report `Pinned`.
    Pin(u64),
    /// Make the driver's read call, then report `Executed`.
    Execute,
    /// The read is over; this is its answer.
    Answer(Result<u64, AccessError>),
}

/// The order of an MSR read: a processor outside the affinity mask is
/// answered with a topology error at once, before any pinning or driver
/// call; otherwise the thread is pinned first, a failed pin is a topology
/// error, and only a pinned thread makes the driver call, whose answer (or
/// error) is the read's.
pub open spec fn msr_read_next(event: MsrReadEvent) -> MsrReadAction {
    match event {
        MsrReadEvent::Begin(cpu) => if cpu >= AFFINITY_MASK_BITS {
            MsrReadAction::Answer(Err(AccessError::TopologyFailed))
        } else {
            MsrReadAction::Pin(1u64 << (cpu as u64))
        },
        MsrReadEvent::Pinned(ok) => if ok {
            MsrReadAction::Execute
        } else {
            MsrReadAction::Answer(Err(AccessError::TopologyFailed))
        },
        MsrReadEvent::Executed(r) => MsrReadAction::Answer(r),
    }
}

/// The next step of an MSR read through the driver after `event`.
pub fn msr_read_step(event: MsrReadEvent) -> (action: MsrReadAction)
    ensures
        action == msr_read_next(event),
{
    match event {
        MsrReadEvent::Begin(cpu) => match affinity_mask(cpu) {
            Some(mask) => MsrReadAction::Pin(mask),
            None => MsrReadAction::Answer(Err(AccessError::TopologyFailed)),
        },
        MsrReadEvent::Pinned(ok) => if ok {
            MsrReadAction::Execute
        } else {
            MsrReadAction::Answer(Err(AccessError::TopologyFailed))
        },
        MsrReadEvent::Executed(r) => MsrReadAction::Answer(r),
    }
}

/// Law: a read on a processor the affinity mask cannot address is answered
/// with `TopologyFailed` as its very first step, so the thread is never pinned
/// and the driver never called; for any other processor the first step pins
/// the thread to that processor alone, and the driver call comes only after a
/// successful pin.
pub proof fn lemma_msr_read_order(cpu: usize)
    ensures
        cpu >= AFFINITY_MASK_BITS ==> msr_read_next(MsrReadEvent::Begin(cpu))
            == MsrReadAction::Answer(Err(AccessError::TopologyFailed)),
        cpu < AFFINITY_MASK_BITS ==> (msr_read_next(MsrReadEvent::Begin(cpu)) matches MsrReadAction::Pin(
            m,
        ) && m == 1u64 << (cpu as u64) && m != 0),
        msr_read_next(MsrReadEvent::Pinned(false)) == MsrReadAction::Answer(
            Err(AccessError::TopologyFailed),
        ),
        msr_read_next(MsrReadEvent::Pinned(true)) == MsrReadAction::Execute,
{
    if cpu < AFFINITY_MASK_BITS {
        let c = cpu as u64;
        assert(c < 64 ==> 1u64 << c != 0) by (bit_vector);
    }
}

proof fn lemma_le_bytes_round_trip(v: u64)
    ensures
        le_u64(le_bytes(v), 0) == v,
{
    let b0 = le_byte(v, 0);
    let b1 = le_byte(v, 1);
    let b2 = le_byte(v, 2);
    let b3 = le_byte(v, 3);
    let b4 = le_byte(v, 4);
    let b5 = le_byte(v, 5);
    let b6 = le_byte(v, 6);
    let b7 = le_byte(v, 7);
    assert((b0 as u64) | ((b1 as u64) << 8u64) | ((b2 as u64) << 16u64) | ((b3 as u64) << 24u64)
        | ((b4 as u64) << 32u64) | ((b5 as u64) << 40u64) | ((b6 as u64) << 48u64) | ((b7 as u64)
        << 56u64) == v) by (bit_vector)
        requires
            b0 == ((v >> 0u64) & 0xFFu64) as u8,
            b1 == ((v >> 8u64) & 0xFFu64) as u8,
            b2 == ((v >> 16u64) & 0xFFu64) as u8,
            b3 == ((v >> 24u64) & 0xFFu64) as u8,
            b4 == ((v >> 32u64) & 0xFFu64) as u8,
            b5 == ((v >> 40u64) & 0xFFu64) as u8,
            b6 == ((v >> 48u64) & 0xFFu64) as u8,
            b7 == ((v >> 56u64) & 0xFFu64) as u8,
    ;
}

proof fn lemma_words_field_index(input: Seq<u64>, i: int, k: int)
    requires
        0 <= i < input.len(),
        0 <= k < 8,
    ensures
        words_field(input)[8 * i + k] == le_bytes(input[i])[k],
    decreases input.len(),
{
    lemma_words_field_len(input.drop_last());
    if i < input.len() - 1 {
        lemma_words_field_index(input.drop_last(), i, k);
    }
}

/// Law: the words a call frame carries are read back unchanged: reading the
/// `i`-th little-endian word of the input part of a frame gives the `i`-th
/// input word.
pub proof fn lemma_frame_words_round_trip(name: Seq<u8>, input: Seq<u64>, i: int)
    requires
        0 <= i < input.len(),
    ensures
        le_u64(words_field(input), 8 * i) == input[i],
        le_u64(call_frame(name, input), FN_NAME_LENGTH + 8 * i) == input[i],
{
    let w = words_field(input);
    let f = call_frame(name, input);
    lemma_words_field_len(input);
    lemma_le_bytes_round_trip(input[i]);
    let b = le_bytes(input[i]);
    assert forall|k: int| 0 <= k < 8 implies w[8 * i + k] == #[trigger] b[k] && f[FN_NAME_LENGTH + 8 * i + k] == b[k] by {
        lemma_words_field_index(input, i, k);
    }
    assert(w[8 * i] == b[0]);
    assert(w[8 * i + 1] == b[1]);
    assert(w[8 * i + 2] == b[2]);
    assert(w[8 * i + 3] == b[3]);
    assert(w[8 * i + 4] == b[4]);
    assert(w[8 * i + 5] == b[5]);
    assert(w[8 * i + 6] == b[6]);
    assert(w[8 * i + 7] == b[7]);
    assert(f[FN_NAME_LENGTH + 8 * i] == b[0]);
    assert(f[FN_NAME_LENGTH + 8 * i + 1] == b[1]);
    assert(f[FN_NAME_LENGTH + 8 * i + 2] == b[2]);
    assert(f[FN_NAME_LENGTH + 8 * i + 3] == b[3]);
    assert(f[FN_NAME_LENGTH + 8 * i + 4] == b[4]);
    assert(f[FN_NAME_LENGTH + 8 * i + 5] == b[5]);
    assert(f[FN_NAME_LENGTH + 8 * i + 6] == b[6]);
    assert(f[FN_NAME_LENGTH + 8 * i + 7] == b[7]);
}

} // verus!
