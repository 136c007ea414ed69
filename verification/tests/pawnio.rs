use zenith::hardware_access::AccessError;
use zenith::pawnio::{
    affinity_mask, call_answer, decode_words, encode_call, guarded_call_frame, msr_read_step,
    MsrReadAction, MsrReadEvent,
    FN_NAME_LENGTH,
};

#[test]
fn call_frame_holds_name_then_words() {
    let frame = encode_call("ioctl_read_msr", &[0x19C, 0x0102_0304_0506_0708]);
    assert_eq!(frame.len(), FN_NAME_LENGTH + 16);
    assert_eq!(&frame[..14], b"ioctl_read_msr");
    assert!(frame[14..32].iter().all(|b| *b == 0));
    assert_eq!(&frame[32..40], &0x19Cu64.to_le_bytes());
    assert_eq!(&frame[40..48], &[8, 7, 6, 5, 4, 3, 2, 1]);
}

#[test]
fn long_names_keep_a_terminating_zero() {
    let name = "a_function_name_longer_than_thirty_two_bytes";
    let frame = encode_call(name, &[]);
    assert_eq!(frame.len(), FN_NAME_LENGTH);
    assert_eq!(&frame[..31], &name.as_bytes()[..31]);
    assert_eq!(frame[31], 0);
}

#[test]
fn words_read_back_what_was_framed() {
    let input = [u64::MAX, 0, 0xDEAD_BEEF_0000_0001];
    let frame = encode_call("f", &input);
    assert_eq!(decode_words(&frame[FN_NAME_LENGTH..], 3), input.to_vec());
    assert_eq!(decode_words(&[1, 0, 0, 0, 0, 0, 0, 0, 9], 1), vec![1]);
    assert!(decode_words(&[], 0).is_empty());
}

#[test]
fn affinity_masks_cover_group_zero() {
    assert_eq!(affinity_mask(0), Some(1));
    assert_eq!(affinity_mask(5), Some(32));
    assert_eq!(affinity_mask(63), Some(1 << 63));
    assert_eq!(affinity_mask(64), None);
}

#[test]
fn out_of_range_cpu_is_refused_before_pinning() {
    assert_eq!(
        msr_read_step(MsrReadEvent::Begin(64)),
        MsrReadAction::Answer(Err(AccessError::TopologyFailed))
    );
    assert_eq!(
        msr_read_step(MsrReadEvent::Begin(200)),
        MsrReadAction::Answer(Err(AccessError::TopologyFailed))
    );
}

#[test]
fn msr_read_pins_then_executes() {
    assert_eq!(msr_read_step(MsrReadEvent::Begin(3)), MsrReadAction::Pin(8));
    assert_eq!(msr_read_step(MsrReadEvent::Pinned(true)), MsrReadAction::Execute);
    assert_eq!(
        msr_read_step(MsrReadEvent::Pinned(false)),
        MsrReadAction::Answer(Err(AccessError::TopologyFailed))
    );
    assert_eq!(
        msr_read_step(MsrReadEvent::Executed(Ok(0x8805_0000))),
        MsrReadAction::Answer(Ok(0x8805_0000))
    );
    assert_eq!(
        msr_read_step(MsrReadEvent::Executed(Err(AccessError::ModuleMissing))),
        MsrReadAction::Answer(Err(AccessError::ModuleMissing))
    );
}

#[test]
fn driver_call_needs_loaded_module() {
    assert_eq!(
        guarded_call_frame(false, "ioctl_read_msr", &[0x19C]),
        Err(AccessError::ModuleMissing)
    );
    let frame = guarded_call_frame(true, "ioctl_read_msr", &[0x19C]).unwrap();
    assert_eq!(frame, encode_call("ioctl_read_msr", &[0x19C]));
}

#[test]
fn driver_call_answer_maps_failure() {
    let out = 0x8805_0000u64.to_le_bytes();
    assert_eq!(call_answer(false, &out, 1), Err(AccessError::MsrFailed));
    assert_eq!(call_answer(true, &out, 1), Ok(vec![0x8805_0000]));
}
