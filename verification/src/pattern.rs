//! Byte patterns with wildcard masks, searched for in a region of the game's
//! memory, and the patches that are written where they are found.
use vstd::prelude::*;

verus! {

/// A byte pattern that is searched for in the address range `start..end` of
/// the game's memory. Position `j` of `op` is compared unless position `j` of
/// `mask` is `'?'`, which stands for any byte.
pub struct Pattern {
    /// Name of the pattern, for diagnostics.
    pub name: &'static str,
    /// First address of the searched range.
    pub start: usize,
    /// End (exclusive) of the searched range.
    pub end: usize,
    /// One character per byte of `op`: `'?'` for a wildcard, anything else to compare.
    pub mask: &'static str,
    /// The bytes that are looked for.
    pub op: Vec<u8>,
}

/// Whether position `j` of a pattern with mask `mask` is a wildcard.
pub open spec fn is_wildcard(mask: Seq<char>, j: int) -> bool {
    mask[j] == '?'
}

/// Whether `op`, under `mask`, matches `memory` at `offset`: the bytes fit, and
/// every position that is not a wildcard holds the pattern's byte.
pub open spec fn matches_at(memory: Seq<u8>, offset: int, op: Seq<u8>, mask: Seq<char>) -> bool {
    &&& 0 <= offset
    &&& offset + op.len() <= memory.len()
    &&& forall|j: int|
        0 <= j < op.len() && !is_wildcard(mask, j) ==> #[trigger] memory[offset + j] == op[j]
}

/// The offset of the first match of `op` under `mask` in `memory`, if any.
pub open spec fn first_match(memory: Seq<u8>, op: Seq<u8>, mask: Seq<char>) -> Option<int> {
    if exists|o: int| #[trigger] matches_at(memory, o, op, mask) {
        Some(
            choose|o: int|
                #[trigger] matches_at(memory, o, op, mask) && forall|p: int|
                    0 <= p < o ==> !#[trigger] matches_at(memory, p, op, mask),
        )
    } else {
        None
    }
}

/// `first_match` is the least offset at which the pattern matches, and is
/// `None` only when it matches nowhere.
pub proof fn lemma_first_match(memory: Seq<u8>, op: Seq<u8>, mask: Seq<char>)
    ensures
        match first_match(memory, op, mask) {
            Some(o) => matches_at(memory, o, op, mask) && forall|p: int|
                0 <= p < o ==> !#[trigger] matches_at(memory, p, op, mask),
            None => forall|p: int| !#[trigger] matches_at(memory, p, op, mask),
        },
{
    if exists|o: int| #[trigger] matches_at(memory, o, op, mask) {
        let w = choose|o: int| #[trigger] matches_at(memory, o, op, mask);
        lemma_least_match(memory, op, mask, w, w);
    }
}

/// Some match at or below the match `w` has no match below it.
proof fn lemma_least_match(memory: Seq<u8>, op: Seq<u8>, mask: Seq<char>, w: int, bound: int)
    requires
        matches_at(memory, w, op, mask),
        0 <= w <= bound,
    ensures
        exists|o: int|
            #[trigger] matches_at(memory, o, op, mask) && forall|p: int|
                0 <= p < o ==> !#[trigger] matches_at(memory, p, op, mask),
    decreases bound,
{
    if forall|p: int| 0 <= p < w ==> !#[trigger] matches_at(memory, p, op, mask) {
        assert(matches_at(memory, w, op, mask));
    } else {
        let q = choose|p: int| 0 <= p < w && #[trigger] matches_at(memory, p, op, mask);
        lemma_least_match(memory, op, mask, q, q);
    }
}

impl Pattern {
    /// A pattern is well formed when it has one mask character per byte and its
    /// range is not reversed.
    pub open spec fn wf(&self) -> bool {
        &&& self.mask@.len() == self.op@.len()
        &&& self.start <= self.end
    }

    /// Searches `memory`, the contents of the addresses `self.start..self.end`,
    /// for the pattern, and returns the address of the first match.
    pub fn find(&self, memory: &[u8]) -> (found: Option<usize>)
        requires
            self.wf(),
            memory@.len() == self.end - self.start,
        ensures
            match found {
                Some(address) => {
                    &&& self.start <= address
                    &&& matches_at(memory@, address - self.start, self.op@, self.mask@)
                    &&& forall|p: int|
                        0 <= p < address - self.start ==> !#[trigger] matches_at(
                            memory@,
                            p,
                            self.op@,
                            self.mask@,
                        )
                },
                None => forall|p: int| !#[trigger] matches_at(memory@, p, self.op@, self.mask@),
            },
            found == (match first_match(memory@, self.op@, self.mask@) {
                Some(o) => Some((self.start + o) as usize),
                None => None::<usize>,
            }),
    {
        let wildcard = wildcard_flags(self.mask);
        let n = self.op.len();
        let len = memory.len();
        if n > len {
            assert forall|p: int| !#[trigger] matches_at(memory@, p, self.op@, self.mask@) by {}
            return None;
        }
        let mut offset: usize = 0;
        while offset <= len - n
            invariant
                n == self.op@.len(),
                len == memory@.len(),
                n <= len,
                wildcard@.len() == n,
                self.wf(),
                memory@.len() == self.end - self.start,
                offset <= len - n + 1,
                forall|j: int| 0 <= j < n ==> wildcard@[j] == is_wildcard(self.mask@, j),
                forall|p: int| 0 <= p < offset ==> !#[trigger] matches_at(memory@, p, self.op@, self.mask@),
            decreases len - offset,
        {
            if matches_here(memory, offset, &self.op, &wildcard, self.mask) {
                proof {
                    // `offset` is the least match, so it is the one that `first_match` picks.
                    let o = offset as int;
                    assert(matches_at(memory@, o, self.op@, self.mask@));
                    let c = choose|q: int|
                        #[trigger] matches_at(memory@, q, self.op@, self.mask@) && forall|p: int|
                            0 <= p < q ==> !#[trigger] matches_at(memory@, p, self.op@, self.mask@);
                    assert(matches_at(memory@, c, self.op@, self.mask@));
                    assert(c == o);
                }
                return Some(self.start + offset);
            }
            offset = offset + 1;
        }
        proof {
            assert forall|p: int| !#[trigger] matches_at(memory@, p, self.op@, self.mask@) by {
                if p >= offset {
                    assert(p + n > len);
                }
            }
        }
        None
    }
}

/// For each character of `mask`, whether it is the wildcard `'?'`.
fn wildcard_flags(mask: &str) -> (flags: Vec<bool>)
    ensures
        flags@.len() == mask@.len(),
        forall|j: int| 0 <= j < mask@.len() ==> flags@[j] == is_wildcard(mask@, j),
{
    let mut flags: Vec<bool> = Vec::new();
    let n = mask.unicode_len();
    let mut i: usize = 0;
    while i < n
        invariant
            n == mask@.len(),
            i <= n,
            flags@.len() == i,
            forall|j: int| 0 <= j < i ==> flags@[j] == is_wildcard(mask@, j),
        decreases n - i,
    {
        let c = mask.get_char(i);
        flags.push(c == '?');
        i = i + 1;
    }
    flags
}

/// Whether `op` matches `memory` at `offset`, given the wildcard flags of the mask.
fn matches_here(memory: &[u8], offset: usize, op: &Vec<u8>, wildcard: &Vec<bool>, mask: &str) -> (m: bool)
    requires
        offset + op@.len() <= memory@.len(),
        wildcard@.len() == op@.len(),
        mask@.len() == op@.len(),
        forall|j: int| 0 <= j < op@.len() ==> wildcard@[j] == is_wildcard(mask@, j),
    ensures
        m == matches_at(memory@, offset as int, op@, mask@),
{
    let n = op.len();
    let mlen = memory.len();
    let mut j: usize = 0;
    while j < n
        invariant
            n == op@.len(),
            mlen == memory@.len(),
            j <= n,
            offset + n <= memory@.len(),
            wildcard@.len() == n,
            forall|k: int| 0 <= k < n ==> wildcard@[k] == is_wildcard(mask@, k),
            forall|k: int|
                0 <= k < j && !is_wildcard(mask@, k) ==> #[trigger] memory@[offset + k] == op@[k],
        decreases n - j,
    {
        if !wildcard[j] && memory[offset + j] != op[j] {
            assert(!(memory@[offset + j as int] == op@[j as int]));
            return false;
        }
        j = j + 1;
    }
    true
}


/// One write of a patch: `bytes` go to the patch's address plus `offset`.
pub struct PatchWrite {
    /// Distance from the patch's address.
    pub offset: usize,
    /// The bytes written there.
    pub bytes: Vec<u8>,
}

impl View for PatchWrite {
    type V = (int, Seq<u8>);

    open spec fn view(&self) -> (int, Seq<u8>) {
        (self.offset as int, self.bytes@)
    }
}

/// A change to the game's code or data: the `protect_len` bytes from
/// `address` are made writable, the writes are made in order, and the
/// previous protection is restored.
pub struct MemoryPatch {
    /// First address of the region that is made writable.
    pub address: usize,
    /// Length of that region.
    pub protect_len: usize,
    /// The writes, each relative to `address`.
    pub writes: Vec<PatchWrite>,
}

impl View for MemoryPatch {
    type V = (int, int, Seq<(int, Seq<u8>)>);

    /// The patch as (address, length made writable, writes).
    open spec fn view(&self) -> (int, int, Seq<(int, Seq<u8>)>) {
        (self.address as int, self.protect_len as int, self.writes_view())
    }
}

/// The view of an optional patch.
pub open spec fn option_view(patch: Option<MemoryPatch>) -> Option<(int, int, Seq<(int, Seq<u8>)>)> {
    match patch {
        Some(p) => Some(p@),
        None => None,
    }
}

/// The patches in `plan`, which is empty or holds one.
pub open spec fn planned(plan: Option<(int, int, Seq<(int, Seq<u8>)>)>) -> Seq<(int, int, Seq<(int, Seq<u8>)>)> {
    match plan {
        Some(v) => seq![v],
        None => Seq::empty(),
    }
}

impl MemoryPatch {
    /// The writes as (offset, bytes) pairs.
    pub open spec fn writes_view(&self) -> Seq<(int, Seq<u8>)> {
        self.writes@.map_values(|w: PatchWrite| w@)
    }

    /// Every write of the patch lies inside the region that it makes writable.
    pub open spec fn writes_inside(&self) -> bool {
        forall|i: int|
            0 <= i < self.writes_view().len() ==> #[trigger] self.writes_view()[i].0
                + self.writes_view()[i].1.len() <= self.protect_len
    }
}

/// A write of `bytes` at `offset`.
pub fn patch_write(offset: usize, bytes: Vec<u8>) -> (w: PatchWrite)
    ensures
        w@ == (offset as int, bytes@),
{
    PatchWrite { offset, bytes }
}

} // verus!
