//! The value stack of the script machine. An entry is a number or a byte
//! string; each can be read as the other through the script integer codec.

use crate::scriptint::{
    decode, lemma_pow256_values, lemma_scriptint_bytes_len, lemma_scriptint_bytes_value,
    read_scriptint_size, scriptint_bytes, scriptint_vec, ScriptIntError,
};
use std::rc::Rc;
use vstd::prelude::*;
use vstd::slice::slice_to_vec;

verus! {

/// Ways a stack operation might fail.
#[derive(Debug, Clone, Copy, PartialEq, Eq, Structural)]
pub enum ExecError {
    /// The stack holds fewer entries than the operation reaches for.
    InvalidStackOperation,
    /// A number outside the 32-bit signed domain, or bytes longer than the
    /// size limit, were read as a number.
    ScriptIntNumericOverflow,
    /// Bytes that are not minimally encoded were read as a number that must be.
    NonMinimalPush,
}

/// The stack-level error that stands for a codec error.
pub open spec fn exec_error_of(e: ScriptIntError) -> ExecError {
    match e {
        ScriptIntError::NonMinimalPush => ExecError::NonMinimalPush,
        ScriptIntError::NumericOverflow => ExecError::ScriptIntNumericOverflow,
    }
}

/// What reading `b` as a number gives at stack level.
pub open spec fn read_bytes(b: Seq<u8>, size: nat, minimal: bool) -> Result<int, ExecError> {
    match decode(b, size, minimal) {
        Ok(n) => Ok(n),
        Err(e) => Err(exec_error_of(e)),
    }
}

/// Decodes an integer in script format, with stack-level errors.
pub fn read_scriptint(v: &[u8], size: usize, minimal: bool) -> (r: Result<i64, ExecError>)
    requires
        size <= 8,
    ensures
        match read_bytes(v@, size as nat, minimal) {
            Ok(n) => r.is_ok() && r.unwrap() as int == n,
            Err(e) => r == Err::<i64, ExecError>(e),
        },
{
    match read_scriptint_size(v, size, minimal) {
        Ok(n) => Ok(n),
        Err(ScriptIntError::NonMinimalPush) => Err(ExecError::NonMinimalPush),
        Err(ScriptIntError::NumericOverflow) => Err(ExecError::ScriptIntNumericOverflow),
    }
}

/// An entry of the stack: a number, or a byte buffer that any number of
/// entries may share. A shared buffer is never written to, so sharing it is
/// not observable: duplication is cheap and each entry reads as its own copy.
#[derive(Clone, Debug, Eq, PartialEq)]
pub enum StackEntry {
    Num(i64),
    StrRef(Rc<Vec<u8>>),
}

/// What an entry holds.
pub enum EntryView {
    Num(i64),
    Str(Seq<u8>),
}

impl View for StackEntry {
    type V = EntryView;

    open spec fn view(&self) -> EntryView {
        match self {
            StackEntry::Num(n) => EntryView::Num(*n),
            StackEntry::StrRef(b) => EntryView::Str(b@),
        }
    }
}

impl EntryView {
    /// The entry read as bytes: a number reads as its canonical bytes.
    pub open spec fn bytes(self) -> Seq<u8> {
        match self {
            EntryView::Num(n) => scriptint_bytes(n as int),
            EntryView::Str(b) => b,
        }
    }

    /// The entry read as a number of the script machine: a number must not
    /// exceed the 32-bit signed maximum, bytes must decode within four bytes.
    pub open spec fn num(self, require_minimal: bool) -> Result<int, ExecError> {
        match self {
            EntryView::Num(n) => if n <= i32::MAX {
                Ok(n as int)
            } else {
                Err(ExecError::ScriptIntNumericOverflow)
            },
            EntryView::Str(b) => read_bytes(b, 4, require_minimal),
        }
    }

    /// Whether the entry can be read as bytes: the canonical bytes of the
    /// least 64-bit integer would not fit the eight-byte encoding buffer.
    pub open spec fn renders(self) -> bool {
        self != EntryView::Num(i64::MIN)
    }
}

impl StackEntry {
    /// The entry read as bytes.
    fn to_bytes(&self) -> (r: Vec<u8>)
        requires
            self@.renders(),
        ensures
            r@ == self@.bytes(),
    {
        match self {
            StackEntry::Num(v) => scriptint_vec(*v),
            StackEntry::StrRef(v) => slice_to_vec(v.as_slice()),
        }
    }

    /// The entry read as a number.
    fn to_num(&self, require_minimal: bool) -> (r: Result<i64, ExecError>)
        ensures
            match self@.num(require_minimal) {
                Ok(n) => r.is_ok() && r.unwrap() as int == n,
                Err(e) => r == Err::<i64, ExecError>(e),
            },
    {
        match self {
            StackEntry::Num(v) => {
                if *v <= i32::MAX as i64 {
                    Ok(*v)
                } else {
                    Err(ExecError::ScriptIntNumericOverflow)
                }
            },
            StackEntry::StrRef(v) => read_scriptint(v.as_slice(), 4, require_minimal),
        }
    }
}

/// The value stack: bottom at index 0, top at the end.
#[derive(Clone, Eq, Debug, PartialEq)]
pub struct Stack(pub(crate) Vec<StackEntry>);

impl View for Stack {
    type V = Seq<EntryView>;

    closed spec fn view(&self) -> Seq<EntryView> {
        self.0@.map_values(|e: StackEntry| e@)
    }
}

/// The index that a negative offset from the top names in a stack of `len`
/// entries, where it names one.
pub open spec fn index_from_top(len: nat, offset: int) -> Option<int> {
    if offset < 0 && -offset <= len {
        Some(len + offset)
    } else {
        None
    }
}

/// Whether every entry of `s` can be read as bytes.
pub open spec fn all_render(s: Seq<EntryView>) -> bool {
    forall|i: int| 0 <= i < s.len() ==> (#[trigger] s[i]).renders()
}

/// A number on top of the stack reads as its canonical bytes, and those
/// bytes on top of the stack read as the number, with minimality required,
/// wherever four bytes hold them.
pub proof fn lemma_number_and_bytes_agree(s: Seq<EntryView>, n: i64)
    ensures
        index_from_top(s.push(EntryView::Num(n)).len(), -1) == Some(s.len() as int),
        s.push(EntryView::Num(n))[s.len() as int].bytes() == scriptint_bytes(n as int),
        -0x8000_0000 < n < 0x8000_0000 ==> s.push(EntryView::Str(scriptint_bytes(n as int)))[s.len() as int].num(
            true,
        ) == Ok::<int, ExecError>(n as int),
{
    if -0x8000_0000 < n < 0x8000_0000 {
        lemma_pow256_values();
        lemma_scriptint_bytes_len(n as int, 4);
        lemma_scriptint_bytes_value(n as int);
    }
}

impl Stack {
    pub fn new() -> (r: Self)
        ensures
            r@ == Seq::<EntryView>::empty(),
    {
        let r = Self(Vec::with_capacity(1000));
        assert(r@ =~= Seq::<EntryView>::empty());
        r
    }

    pub fn is_empty(&self) -> (r: bool)
        ensures
            r == (self@.len() == 0),
    {
        self.0.is_empty()
    }

    pub fn len(&self) -> (r: usize)
        ensures
            r == self@.len(),
    {
        self.0.len()
    }

    /// The top entry read as bytes.
    pub fn last(&self) -> (r: Result<Vec<u8>, ExecError>)
        requires
            self@.len() > 0 ==> self@.last().renders(),
        ensures
            self@.len() == 0 ==> r == Err::<Vec<u8>, ExecError>(ExecError::InvalidStackOperation),
            self@.len() > 0 ==> r.is_ok() && r.unwrap()@ == self@.last().bytes(),
    {
        self.topstr(-1)
    }

    /// A stack of byte entries, one per buffer of `v` and in its order, none
    /// sharing with another.
    pub fn from_u8_vec(v: Vec<Vec<u8>>) -> (r: Self)
        ensures
            r@.len() == v@.len(),
            forall|i: int| 0 <= i < v@.len() ==> r@[i] == EntryView::Str(v@[i]@),
    {
        let mut res = Self::new();
        let ghost whole = v@;
        for entry in iter: v
            invariant
                iter.seq() == whole,
                res@.len() == iter.index(),
                forall|j: int| 0 <= j < iter.index() ==> res@[j] == EntryView::Str(whole[j]@),
        {
            let ghost before = res@;
            res.0.push(StackEntry::StrRef(Rc::new(entry)));
            assert(res@ =~= before.push(EntryView::Str(entry@)));
        }
        res
    }

    /// The entry at a negative `offset` from the top: -1 is the top itself.
    pub fn top(&self, offset: isize) -> (r: Result<&StackEntry, ExecError>)
        requires
            offset < 0,
        ensures
            match index_from_top(self@.len(), offset as int) {
                Some(i) => r.is_ok() && r.unwrap()@ == self@[i],
                None => r == Err::<&StackEntry, ExecError>(ExecError::InvalidStackOperation),
            },
    {
        // The distance below the top, which fits where the offset's size may not.
        let below: usize = (-(offset + 1)) as usize;
        let len: usize = self.0.len();
        if below < len {
            Ok(&self.0[len - 1 - below])
        } else {
            Err(ExecError::InvalidStackOperation)
        }
    }

    /// The entry at `offset` from the top, read as bytes.
    pub fn topstr(&self, offset: isize) -> (r: Result<Vec<u8>, ExecError>)
        requires
            offset < 0,
            index_from_top(self@.len(), offset as int) matches Some(i) ==> self@[i].renders(),
        ensures
            match index_from_top(self@.len(), offset as int) {
                Some(i) => r.is_ok() && r.unwrap()@ == self@[i].bytes(),
                None => r == Err::<Vec<u8>, ExecError>(ExecError::InvalidStackOperation),
            },
    {
        match self.top(offset) {
            Ok(entry) => Ok(entry.to_bytes()),
            Err(e) => Err(e),
        }
    }

    /// The entry at `offset` from the top, read as a number.
    pub fn topnum(&self, offset: isize, require_minimal: bool) -> (r: Result<i64, ExecError>)
        requires
            offset < 0,
        ensures
            match index_from_top(self@.len(), offset as int) {
                Some(i) => match self@[i].num(require_minimal) {
                    Ok(n) => r.is_ok() && r.unwrap() as int == n,
                    Err(e) => r == Err::<i64, ExecError>(e),
                },
                None => r == Err::<i64, ExecError>(ExecError::InvalidStackOperation),
            },
    {
        match self.top(offset) {
            Ok(entry) => entry.to_num(require_minimal),
            Err(e) => Err(e),
        }
    }

    pub fn pushnum(&mut self, num: i64)
        ensures
            final(self)@ == old(self)@.push(EntryView::Num(num)),
    {
        self.push(StackEntry::Num(num));
    }

    /// Pushes a copy of `v`, in a buffer of its own.
    pub fn pushstr(&mut self, v: &[u8])
        ensures
            final(self)@ == old(self)@.push(EntryView::Str(v@)),
    {
        self.push(StackEntry::StrRef(Rc::new(slice_to_vec(v))));
    }

    pub fn push(&mut self, v: StackEntry)
        ensures
            final(self)@ == old(self)@.push(v@),
    {
        self.0.push(v);
        assert(self@ =~= old(self)@.push(v@));
    }

    /// Fails unless the stack holds at least `min_nb_items` entries.
    pub fn needn(&self, min_nb_items: usize) -> (r: Result<(), ExecError>)
        ensures
            r == if self@.len() < min_nb_items {
                Err::<(), ExecError>(ExecError::InvalidStackOperation)
            } else {
                Ok::<(), ExecError>(())
            },
    {
        if self.len() < min_nb_items {
            Err(ExecError::InvalidStackOperation)
        } else {
            Ok(())
        }
    }

    /// Removes the `n` top entries. Where the stack holds fewer, it fails
    /// after removing them all.
    pub fn popn(&mut self, n: usize) -> (r: Result<(), ExecError>)
        ensures
            n <= old(self)@.len() ==> r == Ok::<(), ExecError>(()) && final(self)@ == old(
                self,
            )@.take(old(self)@.len() - n),
            n > old(self)@.len() ==> r == Err::<(), ExecError>(ExecError::InvalidStackOperation)
                && final(self)@.len() == 0,
    {
        let mut i: usize = 0;
        while i < n
            invariant
                i <= n,
                i <= old(self)@.len(),
                self@ == old(self)@.take(old(self)@.len() - i),
            decreases n - i,
        {
            match self.pop() {
                Some(_) => {},
                None => {
                    return Err(ExecError::InvalidStackOperation);
                },
            }
            i += 1;
            assert(old(self)@.take(old(self)@.len() - i + 1).drop_last() =~= old(self)@.take(
                old(self)@.len() - i,
            ));
        }
        Ok(())
    }

    /// Removes the top entry; `None` on an empty stack.
    pub fn pop(&mut self) -> (r: Option<StackEntry>)
        ensures
            old(self)@.len() == 0 ==> r is None && final(self)@ == old(self)@,
            old(self)@.len() > 0 ==> r is Some && r.unwrap()@ == old(self)@.last() && final(self)@
                == old(self)@.drop_last(),
    {
        let r = self.0.pop();
        assert(self@ =~= if old(self)@.len() == 0 {
            old(self)@
        } else {
            old(self)@.drop_last()
        });
        r
    }

    /// Removes the top entry and reads it as bytes.
    pub fn popstr(&mut self) -> (r: Result<Vec<u8>, ExecError>)
        requires
            old(self)@.len() > 0 ==> old(self)@.last().renders(),
        ensures
            old(self)@.len() == 0 ==> r == Err::<Vec<u8>, ExecError>(
                ExecError::InvalidStackOperation,
            ) && final(self)@ == old(self)@,
            old(self)@.len() > 0 ==> r.is_ok() && r.unwrap()@ == old(self)@.last().bytes()
                && final(self)@ == old(self)@.drop_last(),
    {
        match self.pop() {
            Some(entry) => Ok(entry.to_bytes()),
            None => Err(ExecError::InvalidStackOperation),
        }
    }

    /// Removes the top entry and reads it as a number. The entry is gone
    /// also where reading it fails.
    pub fn popnum(&mut self, require_minimal: bool) -> (r: Result<i64, ExecError>)
        ensures
            old(self)@.len() == 0 ==> r == Err::<i64, ExecError>(ExecError::InvalidStackOperation)
                && final(self)@ == old(self)@,
            old(self)@.len() > 0 ==> final(self)@ == old(self)@.drop_last() && match old(
                self,
            )@.last().num(require_minimal) {
                Ok(n) => r.is_ok() && r.unwrap() as int == n,
                Err(e) => r == Err::<i64, ExecError>(e),
            },
    {
        match self.pop() {
            Some(entry) => entry.to_num(require_minimal),
            None => Err(ExecError::InvalidStackOperation),
        }
    }

    /// Removes the entry at index `v`, counted from the bottom.
    pub fn remove(&mut self, v: usize)
        requires
            v < old(self)@.len(),
        ensures
            final(self)@ == old(self)@.remove(v as int),
    {
        self.0.remove(v);
        assert(self@ =~= old(self)@.remove(v as int));
    }

    /// The entry at `index`, counted from the bottom, read as bytes.
    pub fn get(&self, index: usize) -> (r: Vec<u8>)
        requires
            index < self@.len(),
            self@[index as int].renders(),
        ensures
            r@ == self@[index as int].bytes(),
    {
        self.0[index].to_bytes()
    }

    /// Every entry read as bytes, bottom first.
    pub fn to_u8_array(&self) -> (r: Vec<Vec<u8>>)
        requires
            all_render(self@),
        ensures
            r@.len() == self@.len(),
            forall|i: int| 0 <= i < self@.len() ==> r@[i]@ == self@[i].bytes(),
    {
        let mut v: Vec<Vec<u8>> = Vec::new();
        let mut i: usize = 0;
        while i < self.0.len()
            invariant
                i <= self@.len(),
                all_render(self@),
                v@.len() == i,
                forall|j: int| 0 <= j < i ==> v@[j]@ == self@[j].bytes(),
            decreases self@.len() - i,
        {
            assert(self@[i as int].renders());
            v.push(self.get(i));
            i += 1;
        }
        v
    }
}

impl Default for Stack {
    fn default() -> (r: Self)
        ensures
            r@ == Seq::<EntryView>::empty(),
    {
        Self::new()
    }
}

} // verus!
