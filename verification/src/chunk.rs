//! The chunk record.

use vstd::prelude::*;
use vstd::string::StringExecFns;

verus! {

/// The character of a decimal digit.
pub open spec fn digit_char(d: nat) -> char {
    if d == 0 {
        '0'
    } else if d == 1 {
        '1'
    } else if d == 2 {
        '2'
    } else if d == 3 {
        '3'
    } else if d == 4 {
        '4'
    } else if d == 5 {
        '5'
    } else if d == 6 {
        '6'
    } else if d == 7 {
        '7'
    } else if d == 8 {
        '8'
    } else {
        '9'
    }
}

/// A number in decimal, without leading zeros.
pub open spec fn decimal(n: nat) -> Seq<char>
    decreases n,
{
    if n < 10 {
        seq![digit_char(n)]
    } else {
        decimal(n / 10).push(digit_char(n % 10))
    }
}

/// The text that describes a chunk that ends at `index` and holds `len` bytes.
pub open spec fn description(index: nat, len: nat) -> Seq<char> {
    "Chunk at position "@ + decimal(index) + " with "@ + decimal(len) + " bytes"@
}

/// A decimal digit as text.
fn digit_str(d: usize) -> (text: &'static str)
    requires
        d < 10,
    ensures
        text@ == seq![digit_char(d as nat)],
{
    proof {
        reveal_strlit("0");
        reveal_strlit("1");
        reveal_strlit("2");
        reveal_strlit("3");
        reveal_strlit("4");
        reveal_strlit("5");
        reveal_strlit("6");
        reveal_strlit("7");
        reveal_strlit("8");
        reveal_strlit("9");
    }
    let text: &'static str = if d == 0 {
        "0"
    } else if d == 1 {
        "1"
    } else if d == 2 {
        "2"
    } else if d == 3 {
        "3"
    } else if d == 4 {
        "4"
    } else if d == 5 {
        "5"
    } else if d == 6 {
        "6"
    } else if d == 7 {
        "7"
    } else if d == 8 {
        "8"
    } else {
        "9"
    };
    assert(text@ =~= seq![digit_char(d as nat)]);
    text
}

/// Writes a number in decimal.
pub fn decimal_string(n: usize) -> (text: String)
    ensures
        text@ == decimal(n as nat),
    decreases n,
{
    if n < 10 {
        String::from_str(digit_str(n))
    } else {
        let mut text: String = decimal_string(n / 10);
        text.append(digit_str(n % 10));
        assert(text@ =~= decimal(n as nat));
        text
    }
}

/// One chunk of a stream: its payload, and the offset in the stream of the byte
/// just past its end.
pub struct Chunk {
    index: usize,
    data: Vec<u8>,
}

impl Chunk {
    /// The offset in the stream of the byte just past the chunk's end.
    pub closed spec fn end(&self) -> usize {
        self.index
    }

    /// The chunk's bytes.
    pub closed spec fn payload(&self) -> Seq<u8> {
        self.data@
    }

    /// Makes a chunk that ends at `index` out of the bytes in `data`, which are
    /// moved out and leave `data` empty.
    pub fn new(index: usize, data: &mut Vec<u8>) -> (chunk: Self)
        ensures
            chunk.end() == index,
            chunk.payload() == old(data)@,
            final(data)@ == Seq::<u8>::empty(),
    {
        let mut new_vec: Vec<u8> = Vec::new();
        std::mem::swap(&mut new_vec, data);
        Chunk { index, data: new_vec }
    }

    /// The offset in the stream of the byte just past the chunk's end.
    pub fn index(&self) -> (index: usize)
        ensures
            index == self.end(),
    {
        self.index
    }

    /// The chunk's bytes.
    pub fn data(&self) -> (data: &[u8])
        ensures
            data@ == self.payload(),
    {
        self.data.as_slice()
    }

    /// The chunk in words: where it ends and how many bytes it holds.
    pub fn describe(&self) -> (text: String)
        ensures
            text@ == description(self.end() as nat, self.payload().len()),
    {
        let mut text: String = String::from_str("Chunk at position ");
        text.append(decimal_string(self.index).as_str());
        text.append(" with ");
        text.append(decimal_string(self.data.len()).as_str());
        text.append(" bytes");
        text
    }

    /// The number of bytes in the chunk.
    pub fn len(&self) -> (len: usize)
        ensures
            len == self.payload().len(),
    {
        self.data.len()
    }
}

} // verus!
