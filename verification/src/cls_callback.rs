//! The state a CLS plugin's callback works on.
//!
//! A CLS plugin (`cls-*.dll`) decodes by calling back into its host:
//! to read compressed input, to write decoded output, and to fetch its
//! parameter string. This module is that state and those answers; the
//! plugin host copies the bytes to and from the plugin's buffers.

use vstd::prelude::*;

verus! {

/// Callback operation codes of the CLS interface.
pub const CLS_MALLOC: i32 = 1;
pub const CLS_FREE: i32 = 2;
pub const CLS_GET_PARAMSTR: i32 = 3;
pub const CLS_FULL_READ: i32 = 4096;
pub const CLS_PARTIAL_READ: i32 = 5120;
pub const CLS_FULL_WRITE: i32 = 6144;
pub const CLS_PARTIAL_WRITE: i32 = 7168;

/// What a callback operation code asks for.
#[derive(Debug, Clone, Copy, PartialEq, Eq, Structural)]
pub enum ClsOp {
    Read,
    Write,
    GetParams,
    Malloc,
    Free,
    Unknown,
}

/// The operation a callback code asks for.
pub open spec fn op_of(op: i32) -> ClsOp {
    if op == CLS_FULL_READ || op == CLS_PARTIAL_READ {
        ClsOp::Read
    } else if op == CLS_FULL_WRITE || op == CLS_PARTIAL_WRITE {
        ClsOp::Write
    } else if op == CLS_GET_PARAMSTR {
        ClsOp::GetParams
    } else if op == CLS_MALLOC {
        ClsOp::Malloc
    } else if op == CLS_FREE {
        ClsOp::Free
    } else {
        ClsOp::Unknown
    }
}

/// The operation the callback code `op` asks for.
pub fn classify_op(op: i32) -> (r: ClsOp)
    ensures
        r == op_of(op),
{
    if op == CLS_FULL_READ || op == CLS_PARTIAL_READ {
        ClsOp::Read
    } else if op == CLS_FULL_WRITE || op == CLS_PARTIAL_WRITE {
        ClsOp::Write
    } else if op == CLS_GET_PARAMSTR {
        ClsOp::GetParams
    } else if op == CLS_MALLOC {
        ClsOp::Malloc
    } else if op == CLS_FREE {
        ClsOp::Free
    } else {
        ClsOp::Unknown
    }
}

/// A byte count the plugin passes: negative counts mean none.
pub open spec fn count_of(n: i32) -> nat {
    if n < 0 {
        0
    } else {
        n as nat
    }
}

/// The input still to be read, the output written so far, and the
/// parameter string with its terminating NUL.
pub struct ClsContext {
    input: Vec<u8>,
    pos: usize,
    output: Vec<u8>,
    params: Vec<u8>,
}

impl ClsContext {
    /// The whole input.
    pub closed spec fn input(&self) -> Seq<u8> {
        self.input@
    }

    /// How much of the input has been read.
    pub closed spec fn pos(&self) -> nat {
        self.pos as nat
    }

    /// The output written so far.
    pub closed spec fn output(&self) -> Seq<u8> {
        self.output@
    }

    /// The parameter string, NUL-terminated.
    pub closed spec fn params(&self) -> Seq<u8> {
        self.params@
    }

    /// Reading never goes past the input.
    pub closed spec fn wf(&self) -> bool {
        self.pos <= self.input@.len()
    }

    /// A context for decoding `input` with the parameter string
    /// `params`; `None` when `params` holds a NUL byte (it could not be
    /// passed as a C string).
    pub fn new(input: Vec<u8>, params: &[u8]) -> (r: Option<ClsContext>)
        ensures
            (exists|i: int| 0 <= i < params@.len() && params@[i] == 0) ==> r is None,
            !(exists|i: int| 0 <= i < params@.len() && params@[i] == 0) ==> (r matches Some(c)
                && c.wf() && c.input() == input@ && c.pos() == 0 && c.output() == Seq::<u8>::empty()
                && c.params() == params@.push(0u8)),
    {
        let mut p: Vec<u8> = Vec::new();
        let mut i: usize = 0;
        while i < params.len()
            invariant
                i <= params.len(),
                p@ == params@.subrange(0, i as int),
                forall|j: int| 0 <= j < i ==> params@[j] != 0,
            decreases params.len() - i,
        {
            if params[i] == 0 {
                return None;
            }
            p.push(params[i]);
            i = i + 1;
            assert(p@ =~= params@.subrange(0, i as int));
        }
        assert(params@.subrange(0, i as int) =~= params@);
        p.push(0);
        let c = ClsContext { input, pos: 0, output: Vec::new(), params: p };
        assert(c.output@ =~= Seq::<u8>::empty());
        Some(c)
    }

    /// Answer a read of up to `n` bytes: the next bytes of the input,
    /// as many as are asked for and left; the input is consumed.
    pub fn read(&mut self, n: i32) -> (r: Vec<u8>)
        requires
            old(self).wf(),
        ensures
            final(self).wf(),
            r@ == old(self).input().subrange(
                old(self).pos() as int,
                old(self).pos() + if count_of(n) < old(self).input().len() - old(self).pos() {
                    count_of(n) as int
                } else {
                    old(self).input().len() - old(self).pos()
                },
            ),
            final(self).pos() == old(self).pos() + r@.len(),
            final(self).input() == old(self).input(),
            final(self).output() == old(self).output(),
            final(self).params() == old(self).params(),
    {
        let want: usize = if n < 0 {
            0
        } else {
            n as usize
        };
        let avail = self.input.len() - self.pos;
        let take = if avail < want {
            avail
        } else {
            want
        };
        let mut r: Vec<u8> = Vec::new();
        let start = self.pos;
        let total = self.input.len();
        let mut i: usize = 0;
        while i < take
            invariant
                total == self.input@.len(),
                start + take <= total,
                i <= take,
                r@ == self.input@.subrange(start as int, start + i),
            decreases take - i,
        {
            r.push(self.input[start + i]);
            i = i + 1;
            assert(r@ =~= self.input@.subrange(start as int, start + i));
        }
        self.pos = start + take;
        r
    }

    /// Answer a write: the bytes are appended to the output.
    pub fn write(&mut self, data: &[u8])
        requires
            old(self).wf(),
        ensures
            final(self).wf(),
            final(self).output() == old(self).output() + data@,
            final(self).input() == old(self).input(),
            final(self).pos() == old(self).pos(),
            final(self).params() == old(self).params(),
    {
        let ghost before = self.output@;
        let mut i: usize = 0;
        while i < data.len()
            invariant
                i <= data.len(),
                self.output@ == before + data@.subrange(0, i as int),
                self.input@ == old(self).input@,
                self.pos == old(self).pos,
                self.params@ == old(self).params@,
                self.pos <= self.input@.len(),
            decreases data.len() - i,
        {
            self.output.push(data[i]);
            i = i + 1;
            assert(self.output@ =~= before + data@.subrange(0, i as int));
        }
        assert(data@.subrange(0, i as int) =~= data@);
    }

    /// The bytes to copy into the plugin's parameter buffer of `n`
    /// bytes: the NUL-terminated string, cut to the buffer, with the
    /// last byte made NUL when it was cut; nothing for an empty buffer.
    pub fn param_string(&self, n: i32) -> (r: Vec<u8>)
        ensures
            count_of(n) == 0 ==> r@ == Seq::<u8>::empty(),
            count_of(n) > 0 && self.params().len() <= count_of(n) ==> r@ == self.params(),
            count_of(n) > 0 && self.params().len() > count_of(n) ==> r@ == self.params().subrange(
                0,
                count_of(n) - 1,
            ).push(0u8),
    {
        let cap: usize = if n < 0 {
            0
        } else {
            n as usize
        };
        let mut r: Vec<u8> = Vec::new();
        if cap == 0 {
            return r;
        }
        let len = if self.params.len() < cap {
            self.params.len()
        } else {
            cap
        };
        let mut i: usize = 0;
        while i < len
            invariant
                len <= self.params@.len(),
                i <= len,
                r@ == self.params@.subrange(0, i as int),
            decreases len - i,
        {
            r.push(self.params[i]);
            i = i + 1;
            assert(r@ =~= self.params@.subrange(0, i as int));
        }
        if len == cap && self.params.len() > cap {
            r.set(cap - 1, 0);
            assert(r@ =~= self.params@.subrange(0, cap - 1).push(0u8));
        } else {
            assert(self.params@.subrange(0, len as int) =~= self.params@);
        }
        r
    }

    /// The decoded output.
    pub fn into_output(self) -> (r: Vec<u8>)
        ensures
            r@ == self.output(),
    {
        self.output
    }
}

/// The magnitude of `rc`.
pub open spec fn abs_of(rc: i32) -> int {
    if rc < 0 {
        -rc
    } else {
        rc as int
    }
}

/// The exit status the plugin host reports for a failing return code
/// `rc`: its magnitude, at most 127.
pub fn failure_exit_code(rc: i32) -> (r: u8)
    requires
        rc != i32::MIN,
    ensures
        r as int == if abs_of(rc) < 127 {
            abs_of(rc)
        } else {
            127
        },
{
    let a = if rc < 0 {
        -rc
    } else {
        rc
    };
    if a < 127 {
        a as u8
    } else {
        127
    }
}

} // verus!
