//! The patches that point the game at a Pocket Relay server: the patterns
//! that locate the game's code, the patch written where each one is found,
//! and the fake host entry answered for the redirector's host name.
use crate::pattern::{
    first_match, is_wildcard, lemma_first_match, matches_at, option_view, patch_write, planned, MemoryPatch, Pattern,
};
use vstd::prelude::*;

verus! {

/// First address of the game's code that is searched for patterns.
pub const SCAN_START: usize = 0x401000;

/// End (exclusive) of the searched code.
pub const SCAN_END: usize = 0xFFFFFF;

/// A mask of `n` compared positions.
pub open spec fn exact_mask(n: nat) -> Seq<char> {
    Seq::new(n, |j: int| 'x')
}

/// Code that checks whether a piece of downloadable content is owned.
pub open spec fn spec_dlc_op() -> Seq<u8> {
    seq![
        0x8Bu8, 0x11, 0x8B, 0x42, 0x0C, 0x57, 0x56, 0xFF, 0xD0, 0x8B, 0xC3, 0x8B, 0x4D, 0xF4, 0x64,
        0x89, 0x0D, 0x00, 0x00, 0x00, 0x00, 0x59, 0x5F, 0x5E, 0x5B, 0x8B, 0xE5, 0x5D, 0xC2, 0x08,
        0x00, 0xCC, 0xCC, 0xCC, 0x8B, 0x41, 0x04, 0x56, 0x85, 0xC0,
    ]
}

/// Code that decides whether the developer console may be opened.
pub open spec fn spec_console_op() -> Seq<u8> {
    seq![
        0x8Bu8, 0x45, 0x0C, 0xC7, 0x00, 0x01, 0x00, 0x00, 0x00, 0x5D, 0xC2, 0x08, 0x00, 0x8B, 0x4D,
        0x0C, 0xC7, 0x01, 0x01, 0x00, 0x00, 0x00, 0x5D, 0xC2, 0x08, 0x00, 0xCC, 0xCC, 0xCC, 0xCC,
        0xCC,
    ]
}

/// The end of the routine that verifies the server's certificate.
pub open spec fn spec_verify_certificate_op() -> Seq<u8> {
    seq![0xB8u8, 0xE4, 0xFF, 0xFF, 0xFF, 0x5B, 0x59, 0xC3]
}

/// The call to `gethostbyname` and the code that reads the address it returns.
pub open spec fn spec_hostname_lookup_op() -> Seq<u8> {
    seq![
        0xE8u8, 0x8B, 0x9F, 0xF8, 0xFF, 0x85, 0xC0, 0x74, 0x2E, 0x8B, 0x48, 0x0C, 0x8B, 0x01, 0x0F,
        0xB6, 0x10, 0x0F, 0xB6, 0x48, 0x01, 0xC1, 0xE2, 0x08, 0x0B, 0xD1, 0x0F, 0xB6, 0x48, 0x02,
        0x0F, 0xB6, 0x40, 0x03, 0xC1, 0xE2, 0x08, 0x0B, 0xD1, 0xC1, 0xE2, 0x08, 0x0B, 0xD0, 0x89,
        0x56, 0x04, 0xC7, 0x06, 0x01, 0x00, 0x00, 0x00,
    ]
}

/// The mask of the host name lookup: the call's displacement (bytes 1 to 4)
/// differs between builds of the game, everything else is compared.
pub open spec fn spec_hostname_lookup_mask() -> Seq<char> {
    Seq::new(53, |j: int| if 1 <= j <= 4 { '?' } else { 'x' })
}

/// The pattern of the downloadable content check.
pub fn dlc_pattern() -> (p: Pattern)
    ensures
        p.name@ == "DLC"@,
        p.wf(),
        p.start == SCAN_START,
        p.end == SCAN_END,
        p.op@ == spec_dlc_op(),
        p.mask@ == exact_mask(40),
{
    let p = Pattern {
        name: "DLC",
        start: SCAN_START,
        end: SCAN_END,
        mask: "xxxxxxxxxxxxxxxxxxxxxxxxxxxxxxxxxxxxxxxx",
        op: vec![
            0x8B, 0x11, 0x8B, 0x42, 0x0C, 0x57, 0x56, 0xFF, 0xD0, 0x8B, 0xC3, 0x8B, 0x4D, 0xF4,
            0x64, 0x89, 0x0D, 0x00, 0x00, 0x00, 0x00, 0x59, 0x5F, 0x5E, 0x5B, 0x8B, 0xE5, 0x5D,
            0xC2, 0x08, 0x00, 0xCC, 0xCC, 0xCC, 0x8B, 0x41, 0x04, 0x56, 0x85, 0xC0,
        ],
    };
    proof {
        reveal_strlit("xxxxxxxxxxxxxxxxxxxxxxxxxxxxxxxxxxxxxxxx");
        assert(p.mask@ =~= exact_mask(40));
        assert(p.op@ =~= spec_dlc_op());
    }
    p
}


/// The pattern of the developer console check.
pub fn console_pattern() -> (p: Pattern)
    ensures
        p.name@ == "Console"@,
        p.wf(),
        p.start == SCAN_START,
        p.end == SCAN_END,
        p.op@ == spec_console_op(),
        p.mask@ == exact_mask(31),
{
    let p = Pattern {
        name: "Console",
        start: SCAN_START,
        end: SCAN_END,
        mask: "xxxxxxxxxxxxxxxxxxxxxxxxxxxxxxx",
        op: vec![
            0x8B, 0x45, 0x0C, 0xC7, 0x00, 0x01, 0x00, 0x00, 0x00, 0x5D, 0xC2, 0x08, 0x00, 0x8B,
            0x4D, 0x0C, 0xC7, 0x01, 0x01, 0x00, 0x00, 0x00, 0x5D, 0xC2, 0x08, 0x00, 0xCC, 0xCC,
            0xCC, 0xCC, 0xCC,
        ],
    };
    proof {
        reveal_strlit("xxxxxxxxxxxxxxxxxxxxxxxxxxxxxxx");
        assert(p.mask@ =~= exact_mask(31));
        assert(p.op@ =~= spec_console_op());
    }
    p
}

/// The pattern of the certificate check.
pub fn verify_certificate_pattern() -> (p: Pattern)
    ensures
        p.name@ == "VerifyCertificate"@,
        p.wf(),
        p.start == SCAN_START,
        p.end == SCAN_END,
        p.op@ == spec_verify_certificate_op(),
        p.mask@ == exact_mask(8),
{
    let p = Pattern {
        name: "VerifyCertificate",
        start: SCAN_START,
        end: SCAN_END,
        mask: "xxxxxxxx",
        op: vec![0xB8, 0xE4, 0xFF, 0xFF, 0xFF, 0x5B, 0x59, 0xC3],
    };
    proof {
        reveal_strlit("xxxxxxxx");
        assert(p.mask@ =~= exact_mask(8));
        assert(p.op@ =~= spec_verify_certificate_op());
    }
    p
}

/// The pattern of the host name lookup.
pub fn hostname_lookup_pattern() -> (p: Pattern)
    ensures
        p.name@ == "gethostbyname"@,
        p.wf(),
        p.start == SCAN_START,
        p.end == SCAN_END,
        p.op@ == spec_hostname_lookup_op(),
        p.mask@ == spec_hostname_lookup_mask(),
{
    let p = Pattern {
        name: "gethostbyname",
        start: SCAN_START,
        end: SCAN_END,
        mask: "x????xxxxxxxxxxxxxxxxxxxxxxxxxxxxxxxxxxxxxxxxxxxxxxxx",
        op: vec![
            0xE8, 0x8B, 0x9F, 0xF8, 0xFF,  // call <JMP.&gethostbyname>
            0x85, 0xC0,  // test eax,eax
            0x74, 0x2E,  // je
            0x8B, 0x48, 0x0C,  // mov ecx,dword ptr ds:[eax+C]
            0x8B, 0x01,  // mov eax,dword ptr ds:[ecx]
            0x0F, 0xB6, 0x10,  // movzx edx,byte ptr ds:[eax]
            0x0F, 0xB6, 0x48, 0x01,  // movzx ecx,byte ptr ds:[eax+1]
            0xC1, 0xE2, 0x08,  // shl edx,8
            0x0B, 0xD1,  // or edx,ecx
            0x0F, 0xB6, 0x48, 0x02,  // movzx ecx,byte ptr ds:[eax+2]
            0x0F, 0xB6, 0x40, 0x03,  // movzx eax,byte ptr ds:[eax+3]
            0xC1, 0xE2, 0x08,  // shl edx,8
            0x0B, 0xD1,  // or edx,ecx
            0xC1, 0xE2, 0x08,  // shl edx,8
            0x0B, 0xD0,  // or edx,eax
            0x89, 0x56, 0x04,  // mov dword ptr ds:[esi+4],edx
            0xC7, 0x06, 0x01, 0x00, 0x00, 0x00,  // mov dword ptr ds:[esi],1
        ],
    };
    proof {
        reveal_strlit("x????xxxxxxxxxxxxxxxxxxxxxxxxxxxxxxxxxxxxxxxxxxxxxxxx");
        assert(p.mask@ =~= spec_hostname_lookup_mask());
        assert(p.op@ =~= spec_hostname_lookup_op());
    }
    p
}

/// The little-endian 32-bit word at `at` in `bytes`.
pub open spec fn le_u32(bytes: Seq<u8>, at: int) -> nat {
    (bytes[at] + bytes[at + 1] * 256 + bytes[at + 2] * 65536 + bytes[at + 3] * 16777216) as nat
}

/// The little-endian bytes of `value`.
pub open spec fn le_bytes(value: u32) -> Seq<u8> {
    seq![
        (value % 256) as u8,
        (value / 256 % 256) as u8,
        (value / 65536 % 256) as u8,
        (value / 16777216) as u8,
    ]
}

/// Where a 32-bit relative `call` at `call_address` with displacement
/// `displacement` goes: the next instruction plus the displacement, in a
/// 32-bit address space.
pub open spec fn call_target(call_address: int, displacement: nat) -> int {
    (call_address + 5 + displacement) % 0x1_0000_0000
}

/// The address of the operand of the thunk that the call at `call_address`
/// goes to. The call goes to a `jmp dword ptr [slot]` thunk, whose operand,
/// the slot's address, starts two bytes after the thunk; addresses wrap in a
/// 32-bit address space. `memory` holds the bytes from `base`; `None` when the
/// call lies outside it.
pub open spec fn spec_thunk_operand(memory: Seq<u8>, base: int, call_address: int) -> Option<int> {
    let call_at = call_address - base;
    if 0 <= call_at && call_at + 5 <= memory.len() {
        Some((call_target(call_address, le_u32(memory, call_at + 1)) + 2) % 0x1_0000_0000)
    } else {
        None
    }
}

/// Reads the little-endian word at `at`.
fn read_le_u32(memory: &[u8], at: usize) -> (word: u32)
    requires
        at + 4 <= memory@.len(),
    ensures
        word == le_u32(memory@, at as int),
{
    let b0 = memory[at] as u32;
    let b1 = memory[at + 1] as u32;
    let b2 = memory[at + 2] as u32;
    let b3 = memory[at + 3] as u32;
    b0 + b1 * 256 + b2 * 65536 + b3 * 16777216
}

/// Follows the call at `call_address` to the address of its thunk's operand
/// (see `spec_thunk_operand`).
pub fn thunk_operand(memory: &[u8], base: usize, call_address: usize) -> (operand: Option<usize>)
    requires
        call_address < 0x1_0000_0000,
    ensures
        operand == (match spec_thunk_operand(memory@, base as int, call_address as int) {
            Some(a) => Some(a as usize),
            None => None::<usize>,
        }),
{
    let len = memory.len();
    if call_address < base || call_address - base >= len || len - (call_address - base) < 5 {
        return None;
    }
    let displacement = read_le_u32(memory, call_address - base + 1);
    let target: u64 = (call_address as u64 + 5 + displacement as u64) % 0x1_0000_0000;
    let operand: u64 = (target + 2) % 0x1_0000_0000;
    Some(operand as usize)
}

/// The bytes of `value`, little-endian.
fn u32_le_bytes(value: u32) -> (bytes: Vec<u8>)
    ensures
        bytes@ == le_bytes(value),
{
    let b = vec![
        (value % 256) as u8,
        (value / 256 % 256) as u8,
        (value / 65536 % 256) as u8,
        (value / 16777216) as u8,
    ];
    proof {
        assert(b@ =~= le_bytes(value));
    }
    b
}

/// Makes owning any downloadable content succeed: at nine bytes past the
/// match, `mov al, 1` replaces the call's result.
pub fn dlc_patch(found: usize) -> (patch: MemoryPatch)
    requires
        found + 9 <= usize::MAX,
    ensures
        patch.address == found + 9,
        patch.protect_len == 2,
        patch.writes_view() == seq![(0int, seq![0xB0u8, 0x01u8])],
        patch.writes_inside(),
{
    let patch = MemoryPatch {
        address: found + 9,
        protect_len: 2,
        writes: vec![patch_write(0, vec![0xB0, 0x01])],
    };
    proof {
        assert(patch.writes_view() =~= seq![(0int, seq![0xB0u8, 0x01u8])]);
    }
    patch
}

/// The console patch: from five bytes past the match (the immediate of the
/// first store of 1), four zero bytes, and four more eighteen bytes further on.
pub fn console_patch(found: usize) -> (patch: MemoryPatch)
    requires
        found + 5 <= usize::MAX,
    ensures
        patch.address == found + 5,
        patch.protect_len == 22,
        patch.writes_view() == seq![(0int, seq![0u8, 0u8, 0u8, 0u8]), (18int, seq![0u8, 0u8, 0u8, 0u8])],
        patch.writes_inside(),
{
    let patch = MemoryPatch {
        address: found + 5,
        protect_len: 22,
        writes: vec![patch_write(0, vec![0, 0, 0, 0]), patch_write(18, vec![0, 0, 0, 0])],
    };
    proof {
        assert(patch.writes_view() =~= seq![(0int, seq![0u8, 0u8, 0u8, 0u8]), (18int, seq![0u8, 0u8, 0u8, 0u8])]);
    }
    patch
}

/// Makes the certificate check succeed: the error code that it loads
/// (`mov eax, -28`) becomes 0.
pub fn cert_check_patch(found: usize) -> (patch: MemoryPatch)
    ensures
        patch.address == found,
        patch.protect_len == 8,
        patch.writes_view() == seq![(1int, seq![0u8, 0u8, 0u8, 0u8])],
        patch.writes_inside(),
{
    let patch = MemoryPatch {
        address: found,
        protect_len: 8,
        writes: vec![patch_write(1, vec![0, 0, 0, 0])],
    };
    proof {
        assert(patch.writes_view() =~= seq![(1int, seq![0u8, 0u8, 0u8, 0u8])]);
    }
    patch
}

/// The host name lookup patch for the thunk operand `operand`, the four bytes
/// at `host_lookup_operand`: the import table slot whose little-endian address
/// they hold gets `replacement`.
pub open spec fn spec_host_lookup_patch(operand: Seq<u8>, replacement: u32) -> (int, int, Seq<(int, Seq<u8>)>) {
    (le_u32(operand, 0) as int, 4int, seq![(0int, le_bytes(replacement))])
}

/// Routes the game's host name lookups to `replacement`: the import table
/// slot whose address the thunk operand `operand` holds gets the
/// replacement's address.
pub fn hook_host_lookup(operand: [u8; 4], replacement: u32) -> (patch: MemoryPatch)
    ensures
        patch@ == spec_host_lookup_patch(operand@, replacement),
        patch.writes_inside(),
        host_patch_reads_back(patch@, operand@, replacement),
{
    proof {
        lemma_host_lookup_plan_reads_back(operand@, replacement);
    }
    let slot = (operand[0] as u32) + (operand[1] as u32) * 256 + (operand[2] as u32) * 65536
        + (operand[3] as u32) * 16777216;
    let patch = MemoryPatch {
        address: slot as usize,
        protect_len: 4,
        writes: vec![patch_write(0, u32_le_bytes(replacement))],
    };
    proof {
        assert(patch.writes_view() =~= seq![(0int, le_bytes(replacement))]);
    }
    patch
}


/// What `hook_dlc` plans for `memory`, the code from `SCAN_START` to `SCAN_END`.
#[verifier::opaque]
pub open spec fn spec_dlc_plan(memory: Seq<u8>) -> Option<(int, int, Seq<(int, Seq<u8>)>)> {
    match first_match(memory, spec_dlc_op(), exact_mask(40)) {
        Some(o) => Some((SCAN_START + o + 9, 2int, seq![(0int, seq![0xB0u8, 0x01u8])])),
        None => None,
    }
}

/// What `hook_console` plans for `memory`.
#[verifier::opaque]
pub open spec fn spec_console_plan(memory: Seq<u8>) -> Option<(int, int, Seq<(int, Seq<u8>)>)> {
    match first_match(memory, spec_console_op(), exact_mask(31)) {
        Some(o) => Some(
            (
                SCAN_START + o + 5,
                22int,
                seq![(0int, seq![0u8, 0u8, 0u8, 0u8]), (18int, seq![0u8, 0u8, 0u8, 0u8])],
            ),
        ),
        None => None,
    }
}

/// What `hook_cert_check` plans for `memory`.
#[verifier::opaque]
pub open spec fn spec_cert_check_plan(memory: Seq<u8>) -> Option<(int, int, Seq<(int, Seq<u8>)>)> {
    match first_match(memory, spec_verify_certificate_op(), exact_mask(8)) {
        Some(o) => Some((SCAN_START + o, 8int, seq![(1int, seq![0u8, 0u8, 0u8, 0u8])])),
        None => None,
    }
}

/// Where, in the code `memory` from `SCAN_START` to `SCAN_END`, the host name
/// lookup's thunk keeps the address of the import table slot: the operand of
/// the thunk that the first match of the lookup's pattern calls.
#[verifier::opaque]
pub open spec fn spec_host_lookup_operand(memory: Seq<u8>) -> Option<int> {
    match first_match(memory, spec_hostname_lookup_op(), spec_hostname_lookup_mask()) {
        Some(o) => spec_thunk_operand(memory, SCAN_START as int, SCAN_START + o),
        None => None,
    }
}

/// With a mask that compares every byte, a pattern matches exactly where its
/// bytes occur.
pub proof fn lemma_exact_mask_matches(memory: Seq<u8>, o: int, op: Seq<u8>)
    requires
        0 <= o,
        o + op.len() <= memory.len(),
    ensures
        matches_at(memory, o, op, exact_mask(op.len())) <==> memory.subrange(o, o + op.len()) == op,
{
    if matches_at(memory, o, op, exact_mask(op.len())) {
        assert forall|j: int| 0 <= j < op.len() implies #[trigger] memory.subrange(o, o + op.len())[j]
            == op[j] by {
            assert(memory[o + j] == op[j]);
        }
        assert(memory.subrange(o, o + op.len()) =~= op);
    }
    if memory.subrange(o, o + op.len()) == op {
        assert forall|j: int| 0 <= j < op.len() && !is_wildcard(exact_mask(op.len()), j) implies #[trigger] memory[o + j]
            == op[j] by {
            assert(memory.subrange(o, o + op.len())[j] == memory[o + j]);
        }
    }
}

/// Where a pattern compared in full is planned to be patched: at the first
/// place, within the code, where all of its bytes occur; `None` exactly when
/// they occur nowhere.
pub open spec fn at_first_occurrence(memory: Seq<u8>, op: Seq<u8>, found: Option<int>) -> bool {
    match found {
        Some(o) => {
            &&& 0 <= o
            &&& o + op.len() <= memory.len()
            &&& memory.subrange(o, o + op.len()) == op
            &&& forall|p: int| 0 <= p < o ==> #[trigger] memory.subrange(p, p + op.len()) != op
        },
        None => forall|p: int| 0 <= p && p + op.len() <= memory.len() ==> #[trigger] memory.subrange(p, p + op.len()) != op,
    }
}

/// The first match of a pattern compared in full is its first occurrence.
pub proof fn lemma_exact_first_match(memory: Seq<u8>, op: Seq<u8>)
    ensures
        at_first_occurrence(memory, op, first_match(memory, op, exact_mask(op.len()))),
{
    let mask = exact_mask(op.len());
    lemma_first_match(memory, op, mask);
    match first_match(memory, op, mask) {
        Some(o) => {
            lemma_exact_mask_matches(memory, o, op);
            assert forall|p: int| 0 <= p < o implies #[trigger] memory.subrange(p, p + op.len()) != op by {
                lemma_exact_mask_matches(memory, p, op);
            }
        },
        None => {
            assert forall|p: int| 0 <= p && p + op.len() <= memory.len() implies #[trigger] memory.subrange(
                p,
                p + op.len(),
            ) != op by {
                lemma_exact_mask_matches(memory, p, op);
            }
        },
    }
}

/// The offset into the code of a planned patch, shifted back by `shift` bytes.
pub open spec fn plan_offset(plan: Option<(int, int, Seq<(int, Seq<u8>)>)>, shift: int) -> Option<int> {
    match plan {
        Some(p) => Some(p.0 - SCAN_START - shift),
        None => None,
    }
}

/// The certificate patch lies at the first place where the eight bytes
/// `B8 E4 FF FF FF 5B 59 C3` (`mov eax, -28; pop ebx; pop ecx; ret`) occur in
/// the code, compared in full, and zeroes the four bytes of the `mov`'s
/// immediate; there is no patch when they occur nowhere.
pub proof fn lemma_cert_check_plan_at_certificate_code(memory: Seq<u8>)
    ensures
        at_first_occurrence(
            memory,
            seq![0xB8u8, 0xE4, 0xFF, 0xFF, 0xFF, 0x5B, 0x59, 0xC3],
            plan_offset(spec_cert_check_plan(memory), 0),
        ),
        spec_cert_check_plan(memory) matches Some(p) ==> p.1 == 8 && p.2 == seq![(1int, seq![0u8, 0u8, 0u8, 0u8])],
{
    reveal(spec_cert_check_plan);
    assert(spec_verify_certificate_op() =~= seq![0xB8u8, 0xE4, 0xFF, 0xFF, 0xFF, 0x5B, 0x59, 0xC3]);
    lemma_exact_first_match(memory, spec_verify_certificate_op());
}

/// The downloadable content patch lies nine bytes past the first place where
/// the check's 40 bytes occur in full.
pub proof fn lemma_dlc_plan_at_dlc_code(memory: Seq<u8>)
    ensures
        at_first_occurrence(memory, spec_dlc_op(), plan_offset(spec_dlc_plan(memory), 9)),
        spec_dlc_plan(memory) matches Some(p) ==> p.1 == 2 && p.2 == seq![(0int, seq![0xB0u8, 0x01u8])],
{
    reveal(spec_dlc_plan);
    let op = spec_dlc_op();
    lemma_exact_first_match(memory, op);
    assert(op.len() == 40);
    match first_match(memory, op, exact_mask(40)) {
        Some(o) => {
            assert(plan_offset(spec_dlc_plan(memory), 9) == Some(o));
        },
        None => {
            assert(plan_offset(spec_dlc_plan(memory), 9) == None::<int>);
        },
    }
}

/// The console patch lies five bytes past the first place where the check's
/// 31 bytes occur in full.
pub proof fn lemma_console_plan_at_console_code(memory: Seq<u8>)
    ensures
        at_first_occurrence(memory, spec_console_op(), plan_offset(spec_console_plan(memory), 5)),
        spec_console_plan(memory) matches Some(p) ==> p.1 == 22 && p.2 == seq![
            (0int, seq![0u8, 0u8, 0u8, 0u8]),
            (18int, seq![0u8, 0u8, 0u8, 0u8]),
        ],
{
    reveal(spec_console_plan);
    let op = spec_console_op();
    lemma_exact_first_match(memory, op);
    let found = first_match(memory, op, exact_mask(31));
    assert(op.len() == 31);
    match found {
        Some(o) => {
            assert(plan_offset(spec_console_plan(memory), 5) == Some(o));
        },
        None => {
            assert(plan_offset(spec_console_plan(memory), 5) == None::<int>);
        },
    }
}

/// Plans the patch that makes all downloadable content owned, given the
/// game's code from `SCAN_START` to `SCAN_END`; `None` when the code is not found.
pub fn hook_dlc(memory: &[u8]) -> (patch: Option<MemoryPatch>)
    requires
        memory@.len() == SCAN_END - SCAN_START,
    ensures
        option_view(patch) == spec_dlc_plan(memory@),
        patch matches Some(p) ==> p.writes_inside(),
        at_first_occurrence(memory@, spec_dlc_op(), plan_offset(option_view(patch), 9)),
{
    proof {
        lemma_dlc_plan_at_dlc_code(memory@);
    }
    reveal(spec_dlc_plan);
    match dlc_pattern().find(memory) {
        Some(found) => Some(dlc_patch(found)),
        None => None,
    }
}

/// Plans the patch that unlocks the developer console.
pub fn hook_console(memory: &[u8]) -> (patch: Option<MemoryPatch>)
    requires
        memory@.len() == SCAN_END - SCAN_START,
    ensures
        option_view(patch) == spec_console_plan(memory@),
        patch matches Some(p) ==> p.writes_inside(),
        at_first_occurrence(memory@, spec_console_op(), plan_offset(option_view(patch), 5)),
{
    proof {
        lemma_console_plan_at_console_code(memory@);
    }
    reveal(spec_console_plan);
    match console_pattern().find(memory) {
        Some(found) => Some(console_patch(found)),
        None => None,
    }
}

/// Plans the patch that makes the game accept any server certificate.
pub fn hook_cert_check(memory: &[u8]) -> (patch: Option<MemoryPatch>)
    requires
        memory@.len() == SCAN_END - SCAN_START,
    ensures
        option_view(patch) == spec_cert_check_plan(memory@),
        patch matches Some(p) ==> p.writes_inside(),
        at_first_occurrence(memory@, seq![0xB8u8, 0xE4, 0xFF, 0xFF, 0xFF, 0x5B, 0x59, 0xC3], plan_offset(option_view(patch), 0)),
{
    proof {
        lemma_cert_check_plan_at_certificate_code(memory@);
    }
    reveal(spec_cert_check_plan);
    match verify_certificate_pattern().find(memory) {
        Some(found) => Some(cert_check_patch(found)),
        None => None,
    }
}

/// Where the host name lookup's pattern matches: a `call` opcode (`E8`) with
/// any displacement, followed by the 48 compared bytes of the pattern.
pub open spec fn host_lookup_code_at(memory: Seq<u8>, o: int) -> bool {
    &&& 0 <= o
    &&& o + 53 <= memory.len()
    &&& memory[o] == 0xE8
    &&& memory.subrange(o + 5, o + 53) == spec_hostname_lookup_op().subrange(5, 53)
}

/// The host name lookup's pattern matches exactly where its code occurs.
proof fn lemma_host_match_iff(memory: Seq<u8>, p: int)
    ensures
        matches_at(memory, p, spec_hostname_lookup_op(), spec_hostname_lookup_mask()) <==> host_lookup_code_at(memory, p),
{
    let op = spec_hostname_lookup_op();
    let mask = spec_hostname_lookup_mask();
    let tail = op.subrange(5, 53);
    if matches_at(memory, p, op, mask) {
        assert(!is_wildcard(mask, 0));
        assert(memory[p + 0] == op[0]);
        assert forall|j: int| 0 <= j < 48 implies #[trigger] memory.subrange(p + 5, p + 53)[j] == tail[j] by {
            assert(!is_wildcard(mask, j + 5));
            assert(memory[p + (j + 5)] == op[j + 5]);
        }
        assert(memory.subrange(p + 5, p + 53) =~= tail);
    }
    if host_lookup_code_at(memory, p) {
        assert forall|j: int| 0 <= j < op.len() && !is_wildcard(mask, j) implies #[trigger] memory[p + j] == op[j] by {
            if j >= 5 {
                assert(memory.subrange(p + 5, p + 53)[j - 5] == tail[j - 5]);
            }
        }
    }
}

/// The host name lookup's operand is taken from the first place where its
/// code occurs (the call's displacement is not compared): it is two bytes
/// past the call's target, the call's end plus its little-endian displacement,
/// in a 32-bit address space. There is none when the code occurs nowhere.
pub proof fn lemma_host_lookup_operand_at_call(memory: Seq<u8>)
    ensures
        match spec_host_lookup_operand(memory) {
            Some(x) => exists|o: int|
                #[trigger] host_lookup_code_at(memory, o) && (forall|p: int|
                    0 <= p < o ==> !#[trigger] host_lookup_code_at(memory, p)) && x == (SCAN_START + o + 5
                    + le_u32(memory, o + 1) + 2) % 0x1_0000_0000,
            None => forall|p: int| !#[trigger] host_lookup_code_at(memory, p),
        },
{
    reveal(spec_host_lookup_operand);
    let op = spec_hostname_lookup_op();
    let mask = spec_hostname_lookup_mask();
    assert forall|p: int| #[trigger] matches_at(memory, p, op, mask) <==> host_lookup_code_at(memory, p) by {
        lemma_host_match_iff(memory, p);
    }
    lemma_first_match(memory, op, mask);
    match first_match(memory, op, mask) {
        Some(o) => {
            let a: int = SCAN_START + o + 5 + le_u32(memory, o + 1);
            assert((a % 0x1_0000_0000 + 2) % 0x1_0000_0000 == (a + 2) % 0x1_0000_0000) by (nonlinear_arith)
                requires
                    a >= 0,
            ;
            assert(spec_host_lookup_operand(memory) == Some((a + 2) % 0x1_0000_0000));
            lemma_host_match_iff(memory, o);
            assert forall|p: int| 0 <= p < o implies !#[trigger] host_lookup_code_at(memory, p) by {
                lemma_host_match_iff(memory, p);
            }
            assert(host_lookup_code_at(memory, o) && (forall|p: int|
                0 <= p < o ==> !#[trigger] host_lookup_code_at(memory, p)) && (a + 2) % 0x1_0000_0000
                == (SCAN_START + o + 5 + le_u32(memory, o + 1) + 2) % 0x1_0000_0000);
        },
        None => {
            assert forall|p: int| !#[trigger] host_lookup_code_at(memory, p) by {
                lemma_host_match_iff(memory, p);
            }
        },
    }
}

/// Finds the host name lookup and returns the address of its thunk's
/// operand, from which the caller reads the four bytes that `hook_host_lookup`
/// and `hook` take; `None` when the lookup's code is not found.
#[verifier::rlimit(40)]
pub fn host_lookup_operand(memory: &[u8]) -> (operand: Option<usize>)
    requires
        memory@.len() == SCAN_END - SCAN_START,
    ensures
        operand == (match spec_host_lookup_operand(memory@) {
            Some(a) => Some(a as usize),
            None => None::<usize>,
        }),
        operand is Some <==> first_match(memory@, spec_hostname_lookup_op(), spec_hostname_lookup_mask()) is Some,
{
    reveal(spec_host_lookup_operand);
    match hostname_lookup_pattern().find(memory) {
        Some(found) => thunk_operand(memory, SCAN_START, found),
        None => None,
    }
}

/// The host name lookup patch for the operand bytes `operand`, if there are any.
pub open spec fn spec_host_lookup_plan(operand: Option<Seq<u8>>, replacement: u32) -> Option<(int, int, Seq<(int, Seq<u8>)>)> {
    match operand {
        Some(b) => Some(spec_host_lookup_patch(b, replacement)),
        None => None,
    }
}

/// The view of optional operand bytes.
pub open spec fn operand_view(operand: Option<[u8; 4]>) -> Option<Seq<u8>> {
    match operand {
        Some(b) => Some(b@),
        None => None,
    }
}

/// A host name lookup patch for operand bytes `operand` that sends lookups to
/// `replacement`: it unprotects the four bytes of the slot whose address the
/// operand holds (little-endian) and makes one write, at the slot itself, of
/// four bytes that read back, little-endian as the game reads them, as
/// `replacement`.
pub open spec fn host_patch_reads_back(patch: (int, int, Seq<(int, Seq<u8>)>), operand: Seq<u8>, replacement: u32) -> bool {
    &&& patch.0 == le_u32(operand, 0)
    &&& patch.1 == 4
    &&& patch.2.len() == 1
    &&& patch.2[0].0 == 0
    &&& patch.2[0].1.len() == 4
    &&& le_u32(patch.2[0].1, 0) == replacement
}

/// The host name lookup patch makes the slot that the thunk jumps through
/// hold `replacement`.
pub proof fn lemma_host_lookup_plan_reads_back(operand: Seq<u8>, replacement: u32)
    ensures
        spec_host_lookup_plan(Some(operand), replacement) matches Some(p) && host_patch_reads_back(
            p,
            operand,
            replacement,
        ),
        spec_host_lookup_plan(None, replacement) is None,
{
    lemma_slot_reads_back(replacement);
}

/// The patches that are applied when the plugin is loaded, in order: the host
/// name lookup, then the certificate check (each when its code is found).
/// `host_operand` holds the four bytes at `host_lookup_operand(memory)`, or
/// `None` when that is `None`.
pub fn hook(memory: &[u8], host_operand: Option<[u8; 4]>, replacement: u32) -> (patches: Vec<MemoryPatch>)
    requires
        memory@.len() == SCAN_END - SCAN_START,
    ensures
        patches@.map_values(|p: MemoryPatch| p@) == planned(spec_host_lookup_plan(operand_view(host_operand), replacement))
            + planned(spec_cert_check_plan(memory@)),
        forall|i: int| 0 <= i < patches@.len() ==> #[trigger] patches@[i].writes_inside(),
        host_operand matches Some(b) ==> (patches@.len() >= 1 && host_patch_reads_back(patches@[0]@, b@, replacement)),
        host_operand is None ==> patches@.map_values(|p: MemoryPatch| p@) == planned(spec_cert_check_plan(memory@)),
{
    proof {
        match host_operand {
            Some(b) => lemma_host_lookup_plan_reads_back(b@, replacement),
            None => {},
        }
    }
    let mut patches: Vec<MemoryPatch> = Vec::new();
    let ghost a = spec_host_lookup_plan(operand_view(host_operand), replacement);
    let ghost b = spec_cert_check_plan(memory@);
    match host_operand {
        Some(operand) => patches.push(hook_host_lookup(operand, replacement)),
        None => {},
    }
    assert(patches@.map_values(|p: MemoryPatch| p@) =~= planned(a));
    let cert = hook_cert_check(memory);
    match cert {
        Some(p) => patches.push(p),
        None => {},
    }
    assert(patches@.map_values(|p: MemoryPatch| p@) =~= planned(a) + planned(b));
    patches
}


/// A slot that got `le_bytes(replacement)` reads back `replacement`: the
/// host name lookup patch writes the word in the byte order in which the
/// game reads its import table.
pub proof fn lemma_slot_reads_back(replacement: u32)
    ensures
        le_u32(le_bytes(replacement), 0) == replacement,
{
    let r = replacement as int;
    let b = le_bytes(replacement);
    assert(b[0] == r % 256);
    assert(b[1] == r / 256 % 256);
    assert(b[2] == r / 65536 % 256);
    assert(b[3] == r / 16777216);
    assert(r == r % 256 + (r / 256 % 256) * 256 + (r / 65536 % 256) * 65536 + (r / 16777216) * 16777216)
        by (nonlinear_arith)
        requires
            0 <= r < 0x1_0000_0000,
    ;
}

/// The host name whose lookups are answered with the local machine.
pub open spec fn spec_redirector_host() -> Seq<u8> {
    seq![
        // "gosredirector.ea.com"
        0x67u8, 0x6f, 0x73, 0x72, 0x65, 0x64, 0x69, 0x72, 0x65, 0x63, 0x74, 0x6f, 0x72, 0x2e, 0x65, 0x61, 0x2e, 0x63, 0x6f, 0x6d,
    ]
}

/// The redirector's host name, as bytes.
pub fn redirector_host() -> (host: Vec<u8>)
    ensures
        host@ == spec_redirector_host(),
{
    let host = vec![
        // "gosredirector.ea.com"
        0x67, 0x6f, 0x73, 0x72, 0x65, 0x64, 0x69, 0x72, 0x65, 0x63, 0x74, 0x6f, 0x72, 0x2e, 0x65, 0x61, 0x2e, 0x63, 0x6f, 0x6d,
    ];
    assert(host@ =~= spec_redirector_host());
    host
}

/// Whether the answer to a lookup of `name` is replaced by a fake one: only
/// for the redirector's host, and only when the real lookup succeeded;
/// otherwise the real answer is passed through.
pub fn should_fake_lookup(name: &[u8], lookup_succeeded: bool) -> (fake: bool)
    ensures
        fake == (lookup_succeeded && name@ == spec_redirector_host()),
{
    if !lookup_succeeded {
        return false;
    }
    let host = redirector_host();
    if name.len() != host.len() {
        assert(name@.len() != spec_redirector_host().len());
        return false;
    }
    let mut i: usize = 0;
    while i < host.len()
        invariant
            host@ == spec_redirector_host(),
            name@.len() == host@.len(),
            i <= host@.len(),
            forall|k: int| 0 <= k < i ==> name@[k] == host@[k],
        decreases host@.len() - i,
    {
        if name[i] != host[i] {
            assert(name@[i as int] != spec_redirector_host()[i as int]);
            return false;
        }
        i = i + 1;
    }
    assert(name@ =~= spec_redirector_host());
    true
}

/// The plain contents of a host entry (`hostent`).
pub struct FakeHostEntry {
    /// Official name of the host.
    pub name: Vec<u8>,
    /// Alternative names.
    pub aliases: Vec<Vec<u8>>,
    /// Address family.
    pub address_type: i16,
    /// Length of each address.
    pub address_length: i16,
    /// The addresses; the first `address_length` bytes of each are the address.
    pub addresses: Vec<Vec<u8>>,
}

/// IPv4 address family (`AF_INET`).
pub const AF_INET: i16 = 2;

/// The loopback address that the redirector's host is answered with.
pub open spec fn spec_loopback() -> Seq<u8> {
    seq![127u8, 0u8, 0u8, 1u8]
}

/// The one address entry of the fake host: the loopback address, followed
/// by the host name and a terminating zero byte.
pub open spec fn spec_fake_address_entry() -> Seq<u8> {
    spec_loopback() + spec_redirector_host() + seq![0u8]
}

/// The host entry answered for the redirector's host: named after it, with
/// no aliases, one IPv4 address, the loopback address.
pub fn fake_host_entry() -> (entry: FakeHostEntry)
    ensures
        entry.name@ == spec_redirector_host(),
        entry.aliases@.len() == 0,
        entry.address_type == AF_INET,
        entry.address_length == 4,
        entry.addresses@.len() == 1,
        entry.addresses@[0]@ == spec_fake_address_entry(),
{
    let mut address: Vec<u8> = Vec::with_capacity(25);
    address.push(127);
    address.push(0);
    address.push(0);
    address.push(1);
    let host = redirector_host();
    let mut i: usize = 0;
    while i < host.len()
        invariant
            host@ == spec_redirector_host(),
            i <= host@.len(),
            address@ == spec_loopback() + host@.subrange(0, i as int),
        decreases host@.len() - i,
    {
        address.push(host[i]);
        i = i + 1;
    }
    address.push(0);
    assert(host@.subrange(0, host@.len() as int) =~= host@);
    assert(address@ =~= spec_fake_address_entry());
    let mut addresses: Vec<Vec<u8>> = Vec::new();
    addresses.push(address);
    FakeHostEntry {
        name: host,
        aliases: Vec::new(),
        address_type: AF_INET,
        address_length: 4,
        addresses,
    }
}

} // verus!
