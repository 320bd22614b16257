use vstd::prelude::*;

verus! {

broadcast use vstd::std_specs::vec::group_vec_axioms, vstd::seq::group_seq_axioms;

/// An instruction of the stack machine.
#[derive(Clone, Copy, Debug, PartialEq, Eq, Structural)]
pub enum Instruction {
    Push(i32),
    Pop,
    Add,
    Sub,
    Mul,
    Div,
}

/// The tag byte of each instruction, in declaration order.
pub open spec fn tag_of(ins: Instruction) -> u8 {
    match ins {
        Instruction::Push(_) => 0,
        Instruction::Pop => 1,
        Instruction::Add => 2,
        Instruction::Sub => 3,
        Instruction::Mul => 4,
        Instruction::Div => 5,
    }
}

/// How many payload bytes follow each tag; `None` for a byte that is no tag.
pub open spec fn payload_width(tag: u8) -> Option<int> {
    if tag == 0 {
        Some(4)
    } else if 1 <= tag <= 5 {
        Some(0)
    } else {
        None
    }
}

/// An `i32` as four bytes, least significant first.
pub open spec fn le_bytes(v: i32) -> Seq<u8> {
    let u = #[verifier::truncate] (v as u32);
    seq![(u & 0xff) as u8, ((u >> 8) & 0xff) as u8, ((u >> 16) & 0xff) as u8, (u >> 24) as u8]
}

/// The `i32` that four bytes hold, least significant first.
pub open spec fn from_le_bytes(b0: u8, b1: u8, b2: u8, b3: u8) -> i32 {
    #[verifier::truncate] (((b0 as u32) | ((b1 as u32) << 8) | ((b2 as u32) << 16) | ((b3 as u32)
        << 24)) as i32)
}

/// An instruction as bytes: its tag, then its payload.
pub open spec fn encode(ins: Instruction) -> Seq<u8> {
    seq![tag_of(ins)] + match ins {
        Instruction::Push(v) => le_bytes(v),
        _ => Seq::empty(),
    }
}

/// Instructions as bytes, one after another.
pub open spec fn encode_all(s: Seq<Instruction>) -> Seq<u8>
    decreases s.len(),
{
    if s.len() == 0 {
        Seq::empty()
    } else {
        encode(s[0]) + encode_all(s.drop_first())
    }
}

/// The instruction at the front of `bytes`, with the number of bytes it
/// takes; `None` when the bytes start with no tag or end inside a payload.
pub open spec fn decode_one(bytes: Seq<u8>) -> Option<(Instruction, int)> {
    if bytes.len() == 0 {
        None
    } else {
        let tag = bytes[0];
        match payload_width(tag) {
            None => None,
            Some(w) => if bytes.len() < 1 + w {
                None
            } else if tag == 0 {
                Some(
                    (
                        Instruction::Push(from_le_bytes(bytes[1], bytes[2], bytes[3], bytes[4])),
                        5,
                    ),
                )
            } else if tag == 1 {
                Some((Instruction::Pop, 1))
            } else if tag == 2 {
                Some((Instruction::Add, 1))
            } else if tag == 3 {
                Some((Instruction::Sub, 1))
            } else if tag == 4 {
                Some((Instruction::Mul, 1))
            } else {
                Some((Instruction::Div, 1))
            },
        }
    }
}

/// The instructions that `bytes` hold, when they hold whole instructions.
pub open spec fn decode(bytes: Seq<u8>) -> Option<Seq<Instruction>>
    decreases bytes.len(),
{
    if bytes.len() == 0 {
        Some(Seq::empty())
    } else {
        match decode_one(bytes) {
            None => None,
            Some((ins, n)) => if 0 < n <= bytes.len() {
                match decode(bytes.subrange(n, bytes.len() as int)) {
                    Some(rest) => Some(seq![ins] + rest),
                    None => None,
                }
            } else {
                None
            },
        }
    }
}

pub proof fn lemma_le_bytes_round_trip(v: i32)
    ensures
        from_le_bytes(le_bytes(v)[0], le_bytes(v)[1], le_bytes(v)[2], le_bytes(v)[3]) == v,
{
    let u = #[verifier::truncate] (v as u32);
    assert((#[verifier::truncate] ((#[verifier::truncate] (v as u32)) as i32)) == v) by (bit_vector);
    assert(((((u & 0xff) as u8) as u32) | (((((u >> 8) & 0xff) as u8) as u32) << 8) | (((((u
        >> 16) & 0xff) as u8) as u32) << 16) | ((((u >> 24) as u8) as u32) << 24)) == u)
        by (bit_vector);
}

/// Decoding the bytes of one instruction followed by anything reads that
/// instruction back, and takes exactly its bytes.
pub proof fn lemma_decode_one_encode(ins: Instruction, rest: Seq<u8>)
    ensures
        decode_one(encode(ins) + rest) == Some((ins, encode(ins).len() as int)),
{
    let b = encode(ins) + rest;
    if let Instruction::Push(v) = ins {
        lemma_le_bytes_round_trip(v);
        assert(b[1] == le_bytes(v)[0]);
        assert(b[2] == le_bytes(v)[1]);
        assert(b[3] == le_bytes(v)[2]);
        assert(b[4] == le_bytes(v)[3]);
    }
}

/// Encoding one more instruction appends its bytes.
pub proof fn lemma_encode_all_push(s: Seq<Instruction>, ins: Instruction)
    ensures
        encode_all(s.push(ins)) == encode_all(s) + encode(ins),
    decreases s.len(),
{
    if s.len() == 0 {
        assert(s.push(ins).drop_first() == Seq::<Instruction>::empty());
        assert(encode_all(s.push(ins)) == encode(ins) + encode_all(Seq::<Instruction>::empty()));
        assert(encode(ins) + Seq::<u8>::empty() == encode(ins));
    } else {
        lemma_encode_all_push(s.drop_first(), ins);
        assert(s.push(ins).drop_first() == s.drop_first().push(ins));
        assert(encode(s[0]) + (encode_all(s.drop_first()) + encode(ins)) == (encode(s[0])
            + encode_all(s.drop_first())) + encode(ins));
    }
}

/// Decoding what encoding wrote gives back the same instructions, in the
/// same order, with the same payloads.
pub proof fn lemma_decode_encode(s: Seq<Instruction>)
    ensures
        decode(encode_all(s)) == Some(s),
    decreases s.len(),
{
    if s.len() > 0 {
        let b = encode_all(s);
        let e = encode(s[0]);
        let rest = encode_all(s.drop_first());
        lemma_decode_one_encode(s[0], rest);
        assert(b.subrange(e.len() as int, b.len() as int) == rest);
        lemma_decode_encode(s.drop_first());
        assert(seq![s[0]] + s.drop_first() == s);
    }
}

/// A buffer of encoded instructions. Instructions are only ever appended.
pub struct Bytecode {
    vec: Vec<u8>,
    program: Ghost<Seq<Instruction>>,
}

impl View for Bytecode {
    type V = Seq<Instruction>;

    closed spec fn view(&self) -> Seq<Instruction> {
        self.program@
    }
}

impl Bytecode {
    /// The bytes of the buffer.
    pub closed spec fn bytes(&self) -> Seq<u8> {
        self.vec@
    }

    /// The bytes are the encoding of the instructions.
    pub closed spec fn wf(&self) -> bool {
        self.vec@ == encode_all(self.program@)
    }

    pub fn new() -> (r: Bytecode)
        ensures
            r.wf(),
            r@ == Seq::<Instruction>::empty(),
    {
        Bytecode { vec: Vec::new(), program: Ghost(Seq::empty()) }
    }

    /// Appends one instruction.
    pub fn push(&mut self, instruction: Instruction)
        requires
            old(self).wf(),
        ensures
            final(self).wf(),
            final(self)@ == old(self)@.push(instruction),
    {
        proof {
            lemma_encode_all_push(self.program@, instruction);
        }
        let ghost before = self.vec@;
        match instruction {
            Instruction::Push(v) => {
                let u = #[verifier::truncate] (v as u32);
                self.vec.push(0u8);
                self.vec.push((u & 0xff) as u8);
                self.vec.push(((u >> 8) & 0xff) as u8);
                self.vec.push(((u >> 16) & 0xff) as u8);
                self.vec.push((u >> 24) as u8);
            },
            Instruction::Pop => self.vec.push(1u8),
            Instruction::Add => self.vec.push(2u8),
            Instruction::Sub => self.vec.push(3u8),
            Instruction::Mul => self.vec.push(4u8),
            Instruction::Div => self.vec.push(5u8),
        }
        assert(self.vec@ == before + encode(instruction));
        self.program = Ghost(self.program@.push(instruction));
    }

    /// The length of the buffer in bytes, not in instructions.
    pub fn len(&self) -> (r: usize)
        ensures
            r == self.bytes().len(),
    {
        self.vec.len()
    }

    /// A reader of the instructions, from the first.
    pub fn iter(&self) -> (r: BytecodeIter<'_>)
        requires
            self.wf(),
        ensures
            r.wf(),
            r.remaining() == self@,
    {
        BytecodeIter::new(self)
    }
}

/// The payload width of each tag, read from the table.
fn payload_len(tag: u8) -> (r: Option<usize>)
    ensures
        match payload_width(tag) {
            Some(w) => r == Some(w as usize),
            None => r is None,
        },
{
    if tag == 0 {
        Some(4)
    } else if 1 <= tag && tag <= 5 {
        Some(0)
    } else {
        None
    }
}

/// Reads the instruction whose tag is at `index`.
fn decode_at(bytes: &Vec<u8>, index: usize) -> (r: Option<(Instruction, usize)>)
    requires
        index <= bytes@.len(),
    ensures
        match decode_one(bytes@.subrange(index as int, bytes@.len() as int)) {
            Some((ins, n)) => r == Some((ins, (index + n) as usize)) && index + n <= bytes@.len(),
            None => r is None,
        },
{
    if index >= bytes.len() {
        return None;
    }
    let ghost b = bytes@.subrange(index as int, bytes@.len() as int);
    let tag = bytes[index];
    let width = match payload_len(tag) {
        Some(w) => w,
        None => {
            return None;
        },
    };
    if bytes.len() - index - 1 < width {
        return None;
    }
    let ins = if tag == 0 {
        let v = #[verifier::truncate] (((bytes[index + 1] as u32) | ((bytes[index + 2] as u32) << 8)
            | ((bytes[index + 3] as u32) << 16) | ((bytes[index + 4] as u32) << 24)) as i32);
        assert(v == from_le_bytes(b[1], b[2], b[3], b[4]));
        Instruction::Push(v)
    } else if tag == 1 {
        Instruction::Pop
    } else if tag == 2 {
        Instruction::Add
    } else if tag == 3 {
        Instruction::Sub
    } else if tag == 4 {
        Instruction::Mul
    } else {
        Instruction::Div
    };
    Some((ins, index + 1 + width))
}

/// A forward reader of the instructions of a buffer.
pub struct BytecodeIter<'a> {
    bytecode: &'a Bytecode,
    index: usize,
    taken: Ghost<int>,
}

impl<'a> BytecodeIter<'a> {
    /// The instructions not read yet.
    pub closed spec fn remaining(&self) -> Seq<Instruction> {
        self.bytecode@.subrange(self.taken@, self.bytecode@.len() as int)
    }

    pub closed spec fn wf(&self) -> bool {
        &&& self.bytecode.wf()
        &&& 0 <= self.taken@ <= self.bytecode@.len()
        &&& self.index <= self.bytecode.bytes().len()
        &&& self.bytecode.bytes().subrange(self.index as int, self.bytecode.bytes().len() as int)
            == encode_all(self.remaining())
    }

    fn new(bytecode: &'a Bytecode) -> (r: BytecodeIter<'a>)
        requires
            bytecode.wf(),
        ensures
            r.wf(),
            r.remaining() == bytecode@,
    {
        let r = BytecodeIter { bytecode, index: 0, taken: Ghost(0) };
        assert(bytecode@.subrange(0, bytecode@.len() as int) == bytecode@);
        assert(bytecode.bytes().subrange(0, bytecode.bytes().len() as int) == bytecode.bytes());
        r
    }

    /// Reads the next instruction.
    pub fn next(&mut self) -> (r: Option<Instruction>)
        requires
            old(self).wf(),
        ensures
            final(self).wf(),
            old(self).remaining().len() == 0 ==> r is None && final(self).remaining() == old(
                self,
            ).remaining(),
            old(self).remaining().len() > 0 ==> r == Some(old(self).remaining()[0])
                && final(self).remaining() == old(self).remaining().drop_first(),
    {
        let ghost rem = self.remaining();
        let ghost bytes = self.bytecode.bytes();
        if self.index < self.bytecode.vec.len() {
            proof {
                if rem.len() == 0 {
                    assert(encode_all(rem) == Seq::<u8>::empty());
                }
                lemma_decode_one_encode(rem[0], encode_all(rem.drop_first()));
            }
            match decode_at(&self.bytecode.vec, self.index) {
                Some((ins, next)) => {
                    proof {
                        let tail = bytes.subrange(self.index as int, bytes.len() as int);
                        let n = encode(rem[0]).len() as int;
                        assert(tail.subrange(n, tail.len() as int) == encode_all(rem.drop_first()));
                        assert(bytes.subrange(next as int, bytes.len() as int) == tail.subrange(
                            n,
                            tail.len() as int,
                        ));
                        assert(rem.drop_first() == self.bytecode@.subrange(
                            self.taken@ + 1,
                            self.bytecode@.len() as int,
                        ));
                    }
                    self.index = next;
                    self.taken = Ghost(self.taken@ + 1);
                    Some(ins)
                },
                None => None,
            }
        } else {
            proof {
                if rem.len() > 0 {
                    lemma_decode_one_encode(rem[0], encode_all(rem.drop_first()));
                }
            }
            None
        }
    }
}

} // verus!
