//! The parameters of the kernels as the bytes that a launch hands over.

use vstd::prelude::*;
use crate::collision_solver::CellColor;
use crate::grid::PushConstantsBuildGrid;
use crate::radix_sort::PushConstants;

verus! {

/// The largest number of bytes that the parameters of one kernel take.
pub const MAX_PUSH_CONSTANT_SIZE: usize = 32;

/// The four bytes of a word, the lowest first.
pub open spec fn word_bytes_le(word: u32) -> Seq<u8> {
    seq![
        (word & 0xff) as u8,
        ((word >> 8) & 0xff) as u8,
        ((word >> 16) & 0xff) as u8,
        ((word >> 24) & 0xff) as u8,
    ]
}

/// The four bytes of a word, the highest first.
pub open spec fn word_bytes_be(word: u32) -> Seq<u8> {
    seq![
        ((word >> 24) & 0xff) as u8,
        ((word >> 16) & 0xff) as u8,
        ((word >> 8) & 0xff) as u8,
        (word & 0xff) as u8,
    ]
}

/// `bytes` holds the words one after the other, four bytes for each, all
/// words in the same byte order: that of the machine, which is one of the
/// two.
pub open spec fn is_encoding(bytes: Seq<u8>, words: Seq<u32>) -> bool {
    &&& bytes.len() == 4 * words.len()
    &&& ((forall|i: int|
        0 <= i < words.len() ==> bytes.subrange(4 * i, 4 * i + 4) == word_bytes_le(
            #[trigger] words[i],
        )) || (forall|i: int|
        0 <= i < words.len() ==> bytes.subrange(4 * i, 4 * i + 4) == word_bytes_be(
            #[trigger] words[i],
        )))
}

/// The memory of `words` as bytes: `bytemuck::cast_slice` from `u32` to
/// `u8`, which never fails in this direction.  Four bytes come back for
/// each word, in the byte order of the machine: the lowest byte first on
/// every word, or the highest first on every word.
#[verifier::external_body]
fn words_to_bytes(words: &Vec<u32>) -> (bytes: Vec<u8>)
    ensures
        is_encoding(bytes@, words@),
{
    bytemuck::cast_slice::<u32, u8>(words.as_slice()).to_vec()
}

/// The bytes of up to eight words of parameters, in the byte order of the
/// machine.
pub fn encode(words: &Vec<u32>) -> (bytes: Vec<u8>)
    requires
        words.len() <= 8,
    ensures
        is_encoding(bytes@, words@),
        bytes.len() == 4 * words.len(),
        bytes.len() <= MAX_PUSH_CONSTANT_SIZE,
{
    words_to_bytes(words)
}

impl PushConstants {
    /// The words of the parameters, in the order of the fields.
    pub fn words(&self) -> (words: Vec<u32>)
        ensures
            words@ == seq![
                self.num_elements,
                self.current_shift,
                self.num_workgroups,
                self.num_blocks_per_workgroup,
            ],
    {
        let mut words: Vec<u32> = Vec::new();
        words.push(self.num_elements);
        words.push(self.current_shift);
        words.push(self.num_workgroups);
        words.push(self.num_blocks_per_workgroup);
        assert(words@ =~= seq![
            self.num_elements,
            self.current_shift,
            self.num_workgroups,
            self.num_blocks_per_workgroup,
        ]);
        words
    }

    /// The parameters as bytes: the four words in the order of the
    /// fields, in the byte order of the machine.
    pub fn to_bytes(&self) -> (bytes: Vec<u8>)
        ensures
            bytes.len() == 16,
            is_encoding(
                bytes@,
                seq![
                    self.num_elements,
                    self.current_shift,
                    self.num_workgroups,
                    self.num_blocks_per_workgroup,
                ],
            ),
    {
        encode(&self.words())
    }
}

impl CellColor {
    /// The parameter as bytes: the colour, in the byte order of the machine.
    pub fn to_bytes(&self) -> (bytes: Vec<u8>)
        ensures
            bytes.len() == 4,
            is_encoding(bytes@, seq![self.color]),
    {
        let mut words: Vec<u32> = Vec::new();
        words.push(self.color);
        assert(words@ =~= seq![self.color]);
        encode(&words)
    }
}

impl PushConstantsBuildGrid {
    /// The words of the parameters, in the order of the fields.
    pub fn words(&self) -> (words: Vec<u32>)
        ensures
            words@ == seq![self.cell_size, self.num_particles],
    {
        let mut words: Vec<u32> = Vec::new();
        words.push(self.cell_size);
        words.push(self.num_particles);
        assert(words@ =~= seq![self.cell_size, self.num_particles]);
        words
    }

    /// The parameters as bytes: the two words in the order of the fields,
    /// in the byte order of the machine.
    pub fn to_bytes(&self) -> (bytes: Vec<u8>)
        ensures
            bytes.len() == 8,
            is_encoding(bytes@, seq![self.cell_size, self.num_particles]),
    {
        encode(&self.words())
    }
}

} // verus!
