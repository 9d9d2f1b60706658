//! The blocks of the address space of version 4 that no packet routes to, and
//! the networks that a mine of a hunt draws inside.

use crate::addr::{ipv4, ipv4_string, ipv4_text};
use crate::text::{decimal, decimal_text, push_char};
use vstd::prelude::*;
use vstd::string::StringExecFns;

verus! {

/// The number of bits of an address of ip version 4.
pub const ADDRESS_BITS: u8 = 32;

/// The bits of the network of the block of a prefix length that holds an
/// address: the address with every bit past the prefix cleared.
pub open spec fn network_bits(addr: u32, prefix: u8) -> u32 {
    addr & (0xffff_ffffu32 << ((32 - prefix) as u32))
}

/// The bits of the network of one block that holds an address.
///
/// The prefix stands from one to thirty-two, so the shift stays inside the
/// width of the value.
pub fn network_of(addr: u32, prefix: u8) -> (n: u32)
    requires
        1 <= prefix <= 32,
    ensures
        n == network_bits(addr, prefix),
{
    let mask = 0xffff_ffffu32 << ((ADDRESS_BITS - prefix) as u32);
    addr & mask
}

/// One block of the address space: its first address and its prefix length.
#[derive(Clone, Copy, Debug, PartialEq, Eq, Structural)]
pub struct Block {
    /// The first address of the block.
    pub network: u32,
    /// The number of leading bits that every address of the block holds.
    pub prefix: u8,
}

impl Block {
    /// True when the block holds the address.
    pub open spec fn holds_spec(self, addr: u32) -> bool {
        network_bits(addr, self.prefix) == self.network
    }

    /// Answers whether this block holds the address.
    pub fn holds(self, addr: u32) -> (b: bool)
        requires
            1 <= self.prefix <= 32,
        ensures
            b == self.holds_spec(addr),
    {
        network_of(addr, self.prefix) == self.network
    }

    /// The text of the block: its network and its prefix length.
    pub open spec fn text_spec(self) -> Seq<char> {
        ipv4_text(self.network) + seq!['/'] + decimal(self.prefix as nat)
    }

    /// Writes the block as the CIDR text of its network and its prefix.
    pub fn text(self) -> (s: String)
        ensures
            s@ == self.text_spec(),
    {
        let mut s = ipv4_string(self.network);
        push_char(&mut s, '/');
        let p = decimal_text(self.prefix as u128);
        s.append(p.as_str());
        s
    }
}

/// Every block that the draw of a hunt rejects, in the order of the
/// special-purpose registry of ip version 4 (RFC 6890 and the registry that
/// follows it). A packet to any of these addresses reaches no host of the
/// internet.
pub open spec fn reserved_table() -> Seq<Block> {
    seq![
        Block { network: 0x0000_0000, prefix: 8 },
        Block { network: 0x0a00_0000, prefix: 8 },
        Block { network: 0x6440_0000, prefix: 10 },
        Block { network: 0x7f00_0000, prefix: 8 },
        Block { network: 0xa9fe_0000, prefix: 16 },
        Block { network: 0xac10_0000, prefix: 12 },
        Block { network: 0xc000_0000, prefix: 24 },
        Block { network: 0xc000_0200, prefix: 24 },
        Block { network: 0xc058_6300, prefix: 24 },
        Block { network: 0xc0a8_0000, prefix: 16 },
        Block { network: 0xc612_0000, prefix: 15 },
        Block { network: 0xc633_6400, prefix: 24 },
        Block { network: 0xcb00_7100, prefix: 24 },
        Block { network: 0xe000_0000, prefix: 4 },
        Block { network: 0xf000_0000, prefix: 4 },
        Block { network: 0xffff_ffff, prefix: 32 },
    ]
}

/// The first block of the table that holds an address, from a place of the
/// table on.
pub open spec fn first_holder(addr: u32, from: int) -> Option<Block>
    decreases 16 - from,
{
    if from >= 16 || from < 0 {
        None
    } else if reserved_table()[from].holds_spec(addr) {
        Some(reserved_table()[from])
    } else {
        first_holder(addr, from + 1)
    }
}

/// The reserved block that holds an address, when one does.
pub open spec fn reserved_block(addr: u32) -> Option<Block> {
    first_holder(addr, 0)
}

/// The blocks of the table.
fn reserved_blocks() -> (blocks: [Block; 16])
    ensures
        blocks@ == reserved_table(),
{
    let blocks = [
        Block { network: ipv4(0, 0, 0, 0), prefix: 8 },
        Block { network: ipv4(10, 0, 0, 0), prefix: 8 },
        Block { network: ipv4(100, 64, 0, 0), prefix: 10 },
        Block { network: ipv4(127, 0, 0, 0), prefix: 8 },
        Block { network: ipv4(169, 254, 0, 0), prefix: 16 },
        Block { network: ipv4(172, 16, 0, 0), prefix: 12 },
        Block { network: ipv4(192, 0, 0, 0), prefix: 24 },
        Block { network: ipv4(192, 0, 2, 0), prefix: 24 },
        Block { network: ipv4(192, 88, 99, 0), prefix: 24 },
        Block { network: ipv4(192, 168, 0, 0), prefix: 16 },
        Block { network: ipv4(198, 18, 0, 0), prefix: 15 },
        Block { network: ipv4(198, 51, 100, 0), prefix: 24 },
        Block { network: ipv4(203, 0, 113, 0), prefix: 24 },
        Block { network: ipv4(224, 0, 0, 0), prefix: 4 },
        Block { network: ipv4(240, 0, 0, 0), prefix: 4 },
        Block { network: ipv4(255, 255, 255, 255), prefix: 32 },
    ];
    assert(blocks@ =~= reserved_table());
    blocks
}

/// The block that holds an address, when a reserved block does. An address
/// that a packet routes to holds none.
pub fn reserved(addr: u32) -> (r: Option<Block>)
    ensures
        r == reserved_block(addr),
{
    let blocks = reserved_blocks();
    let mut k: usize = 0;
    while k < 16
        invariant
            0 <= k <= 16,
            blocks@ == reserved_table(),
            first_holder(addr, 0) == first_holder(addr, k as int),
        decreases 16 - k,
    {
        let block = blocks[k];
        if block.holds(addr) {
            return Some(block);
        }
        k = k + 1;
    }
    None
}

/// A block that the table returns holds the address, and an address that no
/// block returns lies in no block of the table.
pub proof fn lemma_reserved_block(addr: u32)
    ensures
        reserved_block(addr) matches Some(b) ==> b.holds_spec(addr) && reserved_table().contains(b),
        reserved_block(addr) is None ==> forall|i: int|
            0 <= i < 16 ==> !(#[trigger] reserved_table()[i]).holds_spec(addr),
{
    lemma_first_holder(addr, 0);
}

proof fn lemma_first_holder(addr: u32, from: int)
    requires
        0 <= from <= 16,
    ensures
        first_holder(addr, from) matches Some(b) ==> b.holds_spec(addr) && reserved_table().contains(
            b,
        ),
        first_holder(addr, from) is None ==> forall|i: int|
            from <= i < 16 ==> !(#[trigger] reserved_table()[i]).holds_spec(addr),
    decreases 16 - from,
{
    if from < 16 {
        lemma_first_holder(addr, from + 1);
        if reserved_table()[from].holds_spec(addr) {
            assert(reserved_table()[from] == reserved_table()[from]);
        }
    }
}

} // verus!
