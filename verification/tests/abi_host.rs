use voice_actions::abi::{pack_result, unpack_result};
use voice_actions::host::{
    decode_output, input_address, input_bytes, input_len, output_region,
    ModuleError, OutputRegion, ALLOCATE_EXPORT, MEMORY_EXPORT, PROCESS_EXPORT,
};

#[test]
fn pack_places_pointer_above_length() {
    assert_eq!(pack_result(0x1000, 5), 0x0000_1000_0000_0005);
    assert_eq!(pack_result(1, 0), 1i64 << 32);
}

#[test]
fn negative_length_fills_high_half_with_ones() {
    assert_eq!(pack_result(0x1000, -1), -1);
    assert_eq!(pack_result(7, -2), -2);
    assert_eq!(unpack_result(pack_result(7, -2)), (u32::MAX, 0xFFFF_FFFE));
}

#[test]
fn unpack_splits_high_and_low_halves() {
    assert_eq!(unpack_result(0x0000_1000_0000_0005), (0x1000, 5));
    assert_eq!(unpack_result(-1), (u32::MAX, u32::MAX));
}

#[test]
fn unpack_inverts_pack() {
    for &(ptr, len) in &[(0, 0), (7, 3), (-8, 12), (i32::MAX, i32::MAX), (i32::MIN, 1)] {
        assert_eq!(unpack_result(pack_result(ptr, len)), (ptr as u32, len as u32));
    }
}

#[test]
fn input_length_counts_utf8_bytes() {
    assert_eq!(input_len("hello"), 5);
    assert_eq!(input_len("héllo"), 6);
    assert_eq!(input_len(""), 0);
    assert_eq!(input_bytes("hé"), &[0x68, 0xc3, 0xa9]);
}

#[test]
fn allocate_without_value_is_an_error() {
    assert_eq!(input_address(None), Err(ModuleError::AllocateNoValue));
    assert_eq!(input_address(Some(1024)), Ok(1024));
    assert_eq!(input_address(Some(-1)), Ok(u32::MAX));
}

#[test]
fn process_result_locates_output() {
    assert_eq!(output_region(None), Err(ModuleError::ProcessNoValue));
    assert_eq!(output_region(Some(pack_result(2048, 0))), Ok(OutputRegion::Empty));
    assert_eq!(
        output_region(Some(pack_result(2048, 11))),
        Ok(OutputRegion::Bytes { ptr: 2048, len: 11 })
    );
}

#[test]
fn output_bytes_decode_as_utf8() {
    assert_eq!(decode_output(b"HELLO".to_vec()).unwrap(), "HELLO");
    assert_eq!(decode_output(vec![0x68, 0xc3, 0xa9]).unwrap(), "hé");
    assert_eq!(decode_output(vec![0xff, 0x41]), Err(ModuleError::InvalidUtf8));
    assert_eq!(decode_output(vec![0xc3]), Err(ModuleError::InvalidUtf8));
}

#[test]
fn echoed_input_comes_back() {
    let input = "summarize: héllo wörld";
    let ptr = input_address(Some(65536)).unwrap();
    let len = input_len(input);
    let packed = pack_result(ptr as i32, len);
    match output_region(Some(packed)).unwrap() {
        OutputRegion::Bytes { ptr: p, len: l } => {
            assert_eq!((p, l), (65536, len as u32));
            assert_eq!(decode_output(input_bytes(input).to_vec()).unwrap(), input);
        }
        OutputRegion::Empty => panic!("non-empty input reported empty"),
    }
}

#[test]
fn guest_export_names() {
    assert_eq!(ALLOCATE_EXPORT, "allocate");
    assert_eq!(PROCESS_EXPORT, "process");
    assert_eq!(MEMORY_EXPORT, "memory");
}
