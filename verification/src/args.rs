//! The argument view and its cursor.
use core::str::Utf8Error;
use vstd::prelude::*;
use vstd::utf8::{decode_utf8_encode_utf8, encode_utf8};

use crate::cstr::{
    c_str_bytes, c_str_is_utf8, c_str_text, c_str_to_rust, c_str_to_rust_unchecked, is_c_str,
    utf8_error,
};

verus! {

/// The buffers of a raw argument table, each as the bytes it holds.
pub open spec fn table_of(argv: &[&[u8]]) -> Seq<Seq<u8>> {
    Seq::new(argv@.len(), |i: int| argv@[i]@)
}

/// What a native entry point promises of its argument table: there is at
/// least one entry, and every entry holds a NUL-terminated string.
pub open spec fn is_arg_table(table: Seq<Seq<u8>>) -> bool {
    &&& table.len() > 0
    &&& forall|i: int| 0 <= i < table.len() ==> is_c_str(#[trigger] table[i])
}

/// Whether every argument of `table` is well-formed UTF-8.
pub open spec fn all_utf8(table: Seq<Seq<u8>>) -> bool {
    forall|i: int| 0 <= i < table.len() ==> c_str_is_utf8(#[trigger] table[i])
}

/// Whether `index` is the first argument of `table` that is not well-formed
/// UTF-8.
pub open spec fn is_first_invalid(table: Seq<Seq<u8>>, index: int) -> bool {
    &&& 0 <= index < table.len()
    &&& !c_str_is_utf8(table[index])
    &&& forall|j: int| 0 <= j < index ==> c_str_is_utf8(#[trigger] table[j])
}

/// The arguments of `table` as text, in the table's order.
pub open spec fn texts(table: Seq<Seq<u8>>) -> Seq<Seq<char>> {
    Seq::new(table.len(), |i: int| c_str_text(table[i]))
}

/// A view of C-style arguments.
///
/// It borrows the argument table and never copies or changes it.
#[derive(Copy, Clone, Debug)]
pub struct Args<'a> {
    argc: usize,
    argv: &'a [&'a [u8]],
}

impl<'a> View for Args<'a> {
    type V = Seq<Seq<char>>;

    /// The arguments as text. Meaningful where `self.is_utf8()`.
    open spec fn view(&self) -> Seq<Seq<char>> {
        texts(self.table())
    }
}

impl<'a> Args<'a> {
    /// The number of arguments.
    pub closed spec fn count(&self) -> nat {
        self.argc as nat
    }

    /// The buffers of the argument table.
    pub closed spec fn table(&self) -> Seq<Seq<u8>> {
        table_of(self.argv)
    }

    /// The view's invariant: it covers the whole of a table that keeps the
    /// entry point's promise.
    pub open spec fn wf(&self) -> bool {
        &&& is_arg_table(self.table())
        &&& self.table().len() == self.count()
    }

    /// Whether every argument is well-formed UTF-8.
    pub open spec fn is_utf8(&self) -> bool {
        all_utf8(self.table())
    }

    /// Creates a view of `argv` after checking that each of its strings is
    /// well-formed UTF-8.
    ///
    /// The strings are checked in the table's order, and the first one that
    /// fails ends the check: the error is its index together with what the
    /// decoder said of it.
    pub fn new(argc: isize, argv: &'a [&'a [u8]]) -> (res: Result<Self, (usize, Utf8Error)>)
        requires
            argc > 0,
            argv@.len() == argc,
            is_arg_table(table_of(argv)),
        ensures
            res is Ok <==> all_utf8(table_of(argv)),
            res matches Ok(args) ==> {
                &&& args.wf()
                &&& args.is_utf8()
                &&& args.count() == argc
                &&& args.table() == table_of(argv)
            },
            res matches Err((index, error)) ==> {
                &&& is_first_invalid(table_of(argv), index as int)
                &&& error == utf8_error(c_str_bytes(table_of(argv)[index as int]))
            },
    {
        let this = Args { argc: argc as usize, argv };

        let args = this.as_slice();
        for idx in 0..this.argc
            invariant
                this.wf(),
                this.table() == table_of(argv),
                table_of(args) == this.table(),
                args@.len() == this.argc,
                forall|j: int| 0 <= j < idx ==> c_str_is_utf8(#[trigger] this.table()[j]),
        {
            let arg = args[idx];
            assert(arg@ == this.table()[idx as int]);
            if let Err(error) = c_str_to_rust(arg) {
                return Err((idx, error));
            }
        }

        Ok(this)
    }

    /// Creates a view of `argv` without looking at its strings.
    ///
    /// Whether they are well-formed UTF-8 is then the caller's business:
    /// decoding one that is not is outside the contract of
    /// [`get_str_by_index`](Self::get_str_by_index).
    #[inline(always)]
    pub fn new_unchecked(argc: isize, argv: &'a [&'a [u8]]) -> (args: Self)
        requires
            argc > 0,
            argv@.len() == argc,
            is_arg_table(table_of(argv)),
        ensures
            args.wf(),
            args.count() == argc,
            args.table() == table_of(argv),
    {
        Args { argc: argc as usize, argv }
    }

    /// Returns the raw argument table.
    #[inline(always)]
    pub fn as_slice(&self) -> (table: &'a [&'a [u8]])
        requires
            self.wf(),
        ensures
            table@.len() == self.count(),
            table_of(table) == self.table(),
    {
        self.argv
    }

    /// Retrieves the argument at `index` as text.
    #[inline(always)]
    pub fn get_str_by_index(&self, index: usize) -> (s: &'a str)
        requires
            self.wf(),
            index < self.count(),
            c_str_is_utf8(self.table()[index as int]),
        ensures
            s@ == self@[index as int],
    {
        let elem = self.as_slice()[index];
        c_str_to_rust_unchecked(elem)
    }

    /// Starts a traversal of the arguments at the first one.
    ///
    /// The view is only borrowed, so any number of traversals can be
    /// started from it.
    #[inline(always)]
    pub fn into_iter(&'a self) -> (iter: IntoIter<'a>)
        requires
            self.wf(),
        ensures
            iter.wf(),
            iter.args() == *self,
            iter.position() == 0,
            iter@ == self@,
    {
        IntoIter { inner: self, index: 0 }
    }
}

impl<'a> Args<'a> {
    /// The text of a well-formed UTF-8 argument encodes back to exactly the
    /// bytes that stand in the table before its terminator.
    pub proof fn lemma_text_keeps_bytes(self, index: int)
        requires
            0 <= index < self.table().len(),
            c_str_is_utf8(self.table()[index]),
        ensures
            encode_utf8(self@[index]) == c_str_bytes(self.table()[index]),
    {
        decode_utf8_encode_utf8(c_str_bytes(self.table()[index]));
    }
}

/// Cursor over an [`Args`]: the view together with the index of the
/// argument that comes next.
pub struct IntoIter<'a> {
    inner: &'a Args<'a>,
    index: usize,
}

impl<'a> View for IntoIter<'a> {
    type V = Seq<Seq<char>>;

    /// The arguments that are still to come, in the order in which they
    /// come.
    open spec fn view(&self) -> Seq<Seq<char>> {
        self.args()@.skip(self.position() as int)
    }
}

impl<'a> IntoIter<'a> {
    /// The view that is traversed.
    pub closed spec fn args(&self) -> Args<'a> {
        *self.inner
    }

    /// The number of arguments that the cursor has passed.
    pub closed spec fn position(&self) -> nat {
        self.index as nat
    }

    /// The cursor's invariant: it stands at an argument of a well-formed
    /// view, or right behind the last one.
    pub open spec fn wf(&self) -> bool {
        &&& self.args().wf()
        &&& self.position() <= self.args().count()
    }

    /// Whether the argument that comes next, if there is one, is
    /// well-formed UTF-8.
    pub open spec fn next_is_utf8(&self) -> bool {
        self.position() < self.args().count() ==> c_str_is_utf8(
            self.args().table()[self.position() as int],
        )
    }

    /// What `next` returns at this cursor, as text.
    pub open spec fn peek(&self) -> Option<Seq<char>> {
        if self.position() < self.args().count() {
            Some(self.args()@[self.position() as int])
        } else {
            None
        }
    }

    /// The cursor that one call of `next` leaves: one argument further on,
    /// or where it was once the arguments are used up.
    pub closed spec fn step(self) -> Self {
        if self.index < self.inner.argc {
            IntoIter { inner: self.inner, index: (self.index + 1) as usize }
        } else {
            self
        }
    }

    /// The cursor that `k` calls of `next` leave.
    pub open spec fn advanced(self, k: nat) -> Self
        decreases k,
    {
        if k == 0 {
            self
        } else {
            self.step().advanced((k - 1) as nat)
        }
    }

    /// Returns the argument at the cursor as text and moves on, or `None`
    /// once all arguments have been returned.
    pub fn next(&mut self) -> (item: Option<&'a str>)
        requires
            old(self).wf(),
            old(self).next_is_utf8(),
        ensures
            final(self).wf(),
            final(self).args() == old(self).args(),
            *final(self) == old(self).step(),
            match item {
                Some(s) => {
                    &&& old(self).peek() == Some(s@)
                    &&& final(self).position() == old(self).position() + 1
                    &&& final(self)@ == old(self)@.drop_first()
                },
                None => {
                    &&& old(self).peek() is None
                    &&& final(self).position() == old(self).position()
                    &&& final(self)@ == old(self)@
                },
            },
    {
        if self.index >= self.inner.argc {
            return None;
        }
        let elem = self.inner.get_str_by_index(self.index);
        self.index += 1;
        Some(elem)
    }

    /// The number of arguments still to come, as a lower and an upper
    /// bound. Both are exact.
    #[inline(always)]
    pub fn size_hint(&self) -> (hint: (usize, Option<usize>))
        requires
            self.wf(),
        ensures
            hint.0 == self.args().count() - self.position(),
            hint.0 == self@.len(),
            hint.1 == Some(hint.0),
    {
        let count: usize = self.inner.argc - self.index;
        (count, Some(count))
    }

    /// Consumes the cursor and returns the number of arguments that were
    /// still to come, without decoding any of them.
    #[inline(always)]
    pub fn count(self) -> (n: usize)
        requires
            self.wf(),
        ensures
            n == self.args().count() - self.position(),
            n == self@.len(),
    {
        self.inner.argc - self.index
    }
}

impl<'a> IntoIter<'a> {
    /// A step keeps the view and the invariant, and passes one argument
    /// while there is one.
    pub proof fn lemma_step(self)
        requires
            self.wf(),
        ensures
            self.step().wf(),
            self.step().args() == self.args(),
            self.step().position() == if self.position() < self.args().count() {
                self.position() + 1
            } else {
                self.position()
            },
    {
    }

    /// A cursor is determined by its view and its position.
    pub proof fn lemma_same_cursor(self, other: Self)
        requires
            self.args() == other.args(),
            self.position() == other.position(),
        ensures
            self == other,
    {
    }

    /// `k` steps pass `k` arguments, or as many as were left.
    pub proof fn lemma_advanced(self, k: nat)
        requires
            self.wf(),
        ensures
            self.advanced(k).wf(),
            self.advanced(k).args() == self.args(),
            self.advanced(k).position() == if self.position() + k <= self.args().count() {
                self.position() + k
            } else {
                self.args().count()
            },
        decreases k,
    {
        if k > 0 {
            self.lemma_step();
            self.step().lemma_advanced((k - 1) as nat);
        }
    }

    /// A traversal from the start returns the arguments in the table's
    /// order, each exactly once, and then ends: its call number `k`,
    /// counted from zero, returns the text of argument `k` while `k` is
    /// below the number of arguments, and `None` from then on.
    pub proof fn lemma_yields_in_order(self, k: nat)
        requires
            self.wf(),
            self.position() == 0,
        ensures
            k < self.args().count() ==> self.advanced(k).peek() == Some(self.args()@[k as int]),
            k >= self.args().count() ==> self.advanced(k).peek() is None,
            k <= self.args().count() ==> self.advanced(k)@ == self.args()@.skip(k as int),
    {
        self.lemma_advanced(k);
    }

    /// Round trip: where every string of the table is well-formed UTF-8, a
    /// traversal from the start returns exactly the table's strings, in
    /// the table's order. Its call number `k` returns a text whose
    /// encoding is, byte for byte, string `k` of the table, and after the
    /// last string it returns `None`.
    pub proof fn lemma_round_trip(self, k: nat)
        requires
            self.wf(),
            self.position() == 0,
            self.args().is_utf8(),
        ensures
            k < self.args().count() ==> {
                &&& self.advanced(k).peek() matches Some(text)
                &&& text == c_str_text(self.args().table()[k as int])
                &&& encode_utf8(text) == c_str_bytes(self.args().table()[k as int])
            },
            k >= self.args().count() ==> self.advanced(k).peek() is None,
    {
        self.lemma_yields_in_order(k);
        if k < self.args().count() {
            self.args().lemma_text_keeps_bytes(k as int);
        }
    }

    /// After `k` of the `n` arguments have been returned, exactly `n - k`
    /// are still to come: the number that `size_hint` and `count` report.
    pub proof fn lemma_remaining_after(self, k: nat)
        requires
            self.wf(),
            self.position() == 0,
            k <= self.args().count(),
        ensures
            self.advanced(k).wf(),
            self.advanced(k)@.len() == self.args().count() - k,
    {
        self.lemma_advanced(k);
    }

    /// Two traversals of one view, each from the start, return the same
    /// sequence: they agree at every call.
    pub proof fn lemma_restartable(self, other: Self, k: nat)
        requires
            self.wf(),
            other.wf(),
            self.args() == other.args(),
            self.position() == 0,
            other.position() == 0,
        ensures
            self@ == other@,
            self.advanced(k).peek() == other.advanced(k).peek(),
            self.advanced(k)@ == other.advanced(k)@,
    {
        self.lemma_same_cursor(other);
    }

    /// Over a table of well-formed UTF-8 a view made without the check is
    /// as good as a checked one: at every index it decodes to the text
    /// that the checked view decodes to, which is the text that a
    /// traversal of the checked view returns in that place.
    pub proof fn lemma_unchecked_agrees(self, unchecked: Args<'a>, index: nat)
        requires
            self.wf(),
            self.position() == 0,
            self.args().is_utf8(),
            unchecked.wf(),
            unchecked.table() == self.args().table(),
            index < self.args().count(),
        ensures
            unchecked.count() == self.args().count(),
            c_str_is_utf8(unchecked.table()[index as int]),
            unchecked@[index as int] == self.args()@[index as int],
            self.advanced(index).peek() == Some(unchecked@[index as int]),
            unchecked@ == self.args()@,
    {
        self.lemma_yields_in_order(index);
    }
}

} // verus!
