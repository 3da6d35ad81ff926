use pocket_relay_plugin::hooks::{
    console_pattern, dlc_pattern, fake_host_entry, hook, hook_cert_check, hook_console, hook_dlc,
    hook_host_lookup, host_lookup_operand, hostname_lookup_pattern, should_fake_lookup, thunk_operand,
    verify_certificate_pattern, AF_INET, SCAN_END, SCAN_START,
};
use pocket_relay_plugin::pattern::Pattern;

#[test]
fn test() {
    let value = 0x3bfc57f0u32.to_be_bytes();
    println!("{:?}", value);
    assert_eq!(value, [0x3b, 0xfc, 0x57, 0xf0]);
}

fn code_image() -> Vec<u8> {
    vec![0x90u8; SCAN_END - SCAN_START]
}

fn small_pattern(mask: &'static str, op: Vec<u8>) -> Pattern {
    Pattern { name: "test", start: 0x1000, end: 0x1010, mask, op }
}

#[test]
fn find_returns_first_match_address() {
    let p = small_pattern("xx", vec![0xAA, 0xBB]);
    let mut memory = vec![0u8; 16];
    memory[3] = 0xAA;
    memory[4] = 0xBB;
    memory[9] = 0xAA;
    memory[10] = 0xBB;
    assert_eq!(p.find(&memory), Some(0x1003));
}

#[test]
fn find_honours_wildcards() {
    let p = small_pattern("x?x", vec![0xAA, 0x00, 0xCC]);
    let mut memory = vec![0u8; 16];
    memory[5] = 0xAA;
    memory[6] = 0x77;
    memory[7] = 0xCC;
    assert_eq!(p.find(&memory), Some(0x1005));
    let strict = small_pattern("xxx", vec![0xAA, 0x00, 0xCC]);
    assert_eq!(strict.find(&memory), None);
}

#[test]
fn find_considers_the_last_position() {
    let p = small_pattern("xx", vec![0xAA, 0xBB]);
    let mut memory = vec![0u8; 16];
    memory[14] = 0xAA;
    memory[15] = 0xBB;
    assert_eq!(p.find(&memory), Some(0x100E));
}

#[test]
fn find_without_match_is_none() {
    let p = small_pattern("xx", vec![0xAA, 0xBB]);
    let memory = vec![0xAAu8; 16];
    assert_eq!(p.find(&memory), None);
    let too_long = small_pattern("xxxxxxxxxxxxxxxxx", vec![0u8; 17]);
    assert_eq!(too_long.find(&vec![0u8; 16]), None);
}

#[test]
fn game_patterns_have_one_mask_character_per_byte() {
    for p in [dlc_pattern(), console_pattern(), verify_certificate_pattern(), hostname_lookup_pattern()] {
        assert_eq!(p.mask.chars().count(), p.op.len());
        assert_eq!(p.start, 0x401000);
        assert_eq!(p.end, 0xFFFFFF);
    }
    assert_eq!(dlc_pattern().op.len(), 40);
    assert_eq!(console_pattern().op.len(), 31);
    assert_eq!(verify_certificate_pattern().op, vec![0xB8, 0xE4, 0xFF, 0xFF, 0xFF, 0x5B, 0x59, 0xC3]);
    assert_eq!(hostname_lookup_pattern().op.len(), 53);
}

fn place(memory: &mut [u8], address: usize, bytes: &[u8]) {
    let at = address - SCAN_START;
    memory[at..at + bytes.len()].copy_from_slice(bytes);
}

#[test]
fn cert_check_patch_zeroes_the_error_code() {
    let mut memory = code_image();
    place(&mut memory, 0x500000, &verify_certificate_pattern().op);
    let patch = hook_cert_check(&memory).expect("pattern placed");
    assert_eq!(patch.address, 0x500000);
    assert_eq!(patch.protect_len, 8);
    assert_eq!(patch.writes.len(), 1);
    assert_eq!(patch.writes[0].offset, 1);
    assert_eq!(patch.writes[0].bytes, vec![0, 0, 0, 0]);
}

#[test]
fn dlc_patch_sets_result_to_one() {
    let mut memory = code_image();
    place(&mut memory, 0x600010, &dlc_pattern().op);
    let patch = hook_dlc(&memory).expect("pattern placed");
    assert_eq!(patch.address, 0x600019);
    assert_eq!(patch.protect_len, 2);
    assert_eq!(patch.writes[0].offset, 0);
    assert_eq!(patch.writes[0].bytes, vec![0xB0, 0x01]);
}

#[test]
fn console_patch_clears_both_stores() {
    let mut memory = code_image();
    place(&mut memory, 0x700000, &console_pattern().op);
    let patch = hook_console(&memory).expect("pattern placed");
    assert_eq!(patch.address, 0x700005);
    assert_eq!(patch.protect_len, 22);
    assert_eq!(patch.writes.len(), 2);
    assert_eq!((patch.writes[0].offset, patch.writes[0].bytes.clone()), (0, vec![0, 0, 0, 0]));
    assert_eq!((patch.writes[1].offset, patch.writes[1].bytes.clone()), (18, vec![0, 0, 0, 0]));
    // The first write covers the immediate of the first store of 1.
    let op = console_pattern().op;
    assert_eq!(&op[5..9], &[1, 0, 0, 0]);
}

#[test]
fn missing_code_plans_no_patch() {
    let memory = code_image();
    assert!(hook_dlc(&memory).is_none());
    assert!(hook_console(&memory).is_none());
    assert!(hook_cert_check(&memory).is_none());
    assert!(host_lookup_operand(&memory).is_none());
    assert!(hook(&memory, None, 0x1234_5678).is_empty());
}

/// Places the host name lookup at `call`, calling a thunk at `thunk` that
/// jumps through the import slot `slot`.
fn place_host_lookup(memory: &mut [u8], call: usize, thunk: usize, slot: u32) {
    let mut op = hostname_lookup_pattern().op;
    let displacement = (thunk as u32).wrapping_sub(call as u32 + 5);
    op[1..5].copy_from_slice(&displacement.to_le_bytes());
    place(memory, call, &op);
    let mut jump = vec![0xFF, 0x25];
    jump.extend_from_slice(&slot.to_le_bytes());
    place(memory, thunk, &jump);
}

/// The four bytes at `address` of the code image.
fn operand_bytes(memory: &[u8], address: usize) -> [u8; 4] {
    let at = address - SCAN_START;
    [memory[at], memory[at + 1], memory[at + 2], memory[at + 3]]
}

#[test]
fn host_lookup_patch_targets_the_import_slot() {
    let mut memory = code_image();
    place_host_lookup(&mut memory, 0xF652B0, 0xEEF240, 0x019A_4DF1);
    let operand = host_lookup_operand(&memory).expect("pattern placed");
    assert_eq!(operand, 0xEEF242);
    let patch = hook_host_lookup(operand_bytes(&memory, operand), 0x1000_2000);
    assert_eq!(patch.address, 0x019A_4DF1);
    assert_eq!(patch.protect_len, 4);
    assert_eq!(patch.writes[0].offset, 0);
    assert_eq!(patch.writes[0].bytes, 0x1000_2000u32.to_le_bytes().to_vec());
}

#[test]
fn host_lookup_forward_call() {
    let mut memory = code_image();
    place_host_lookup(&mut memory, 0x410000, 0x800000, 0x0250_0000);
    assert_eq!(thunk_operand(&memory, SCAN_START, 0x410000), Some(0x800002));
}

#[test]
fn host_lookup_thunk_outside_code_is_followed() {
    let mut memory = code_image();
    let mut op = hostname_lookup_pattern().op;
    // A call to 0x100: far below the searched code.
    let displacement = 0x100u32.wrapping_sub(0x500000 + 5);
    op[1..5].copy_from_slice(&displacement.to_le_bytes());
    place(&mut memory, 0x500000, &op);
    assert_eq!(host_lookup_operand(&memory), Some(0x102));
    // The caller reads the operand there; its slot is patched.
    let patch = hook_host_lookup([0x78, 0x56, 0x34, 0x12], 7);
    assert_eq!(patch.address, 0x1234_5678);
    assert_eq!(patch.writes[0].bytes, vec![7, 0, 0, 0]);
}

#[test]
fn thunk_operand_wraps_around_the_address_space() {
    let mut memory = code_image();
    let mut op = hostname_lookup_pattern().op;
    let displacement = 0xFFFF_FFFFu32.wrapping_sub(0x500000 + 5);
    op[1..5].copy_from_slice(&displacement.to_le_bytes());
    place(&mut memory, 0x500000, &op);
    assert_eq!(thunk_operand(&memory, SCAN_START, 0x500000), Some(1));
    assert_eq!(thunk_operand(&memory, SCAN_START, SCAN_END - 3), None);
    assert_eq!(thunk_operand(&memory, SCAN_START, 0x100), None);
}

#[test]
fn slot_reads_back_replacement() {
    let patch = hook_host_lookup([0, 0, 0x40, 0], 0xDEAD_BEEF);
    assert_eq!(patch.address, 0x0040_0000);
    // Write the patch into a slot and read the slot as the game does.
    let mut slot = [0u8; 4];
    slot.copy_from_slice(&patch.writes[0].bytes);
    assert_eq!(u32::from_le_bytes(slot), 0xDEAD_BEEF);
}

#[test]
fn hook_plans_host_lookup_then_cert_check() {
    let mut memory = code_image();
    place(&mut memory, 0x450000, &verify_certificate_pattern().op);
    place_host_lookup(&mut memory, 0x460000, 0x470000, 0x0300_0000);
    let operand = host_lookup_operand(&memory).map(|a| operand_bytes(&memory, a));
    let patches = hook(&memory, operand, 0x55);
    assert_eq!(patches.len(), 2);
    assert_eq!(patches[0].address, 0x0300_0000);
    assert_eq!(patches[1].address, 0x450000);
    for p in &patches {
        for w in &p.writes {
            assert!(w.offset + w.bytes.len() <= p.protect_len);
        }
    }
    let only_cert = hook(&memory, None, 0x55);
    assert_eq!(only_cert.len(), 1);
    assert_eq!(only_cert[0].address, 0x450000);
}

#[test]
fn only_redirector_lookups_are_faked() {
    assert!(should_fake_lookup(b"gosredirector.ea.com", true));
    assert!(!should_fake_lookup(b"gosredirector.ea.com", false));
    assert!(!should_fake_lookup(b"gosredirector.ea.co", true));
    assert!(!should_fake_lookup(b"GOSREDIRECTOR.EA.COM", true));
    assert!(!should_fake_lookup(b"example.com", true));
    assert!(!should_fake_lookup(b"", true));
}

#[test]
fn fake_host_entry_points_at_loopback() {
    let entry = fake_host_entry();
    assert_eq!(entry.name, b"gosredirector.ea.com".to_vec());
    assert!(entry.aliases.is_empty());
    assert_eq!(entry.address_type, AF_INET);
    assert_eq!(entry.address_type, 2);
    assert_eq!(entry.address_length, 4);
    assert_eq!(entry.addresses.len(), 1);
    let mut expected = vec![127u8, 0, 0, 1];
    expected.extend_from_slice(b"gosredirector.ea.com\0");
    assert_eq!(entry.addresses[0], expected);
    assert_eq!(entry.addresses[0].len(), 25);
}
