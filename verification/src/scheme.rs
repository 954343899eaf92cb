//! The table of open handles.
//!
//! A handle is a number. The root handle stands for the right to open
//! programs; every other handle is one running program. The table keeps a
//! counter and hands out the first number from the counter on that is no
//! open handle, starting again at zero after the largest number; the
//! counter then moves past that number. So a handle is never given a number
//! that is open, and a number that was closed is not used again before the
//! counter has come round.
//!
//! Opening a program does not start it: [`BrainfuckScheme::openat`] returns
//! a [`Launch`], the machine together with its ends of the channels, for the
//! caller to run where it sees fit.

use crate::brainfuck::{BrainfuckInterpreter, MachineView};
use crate::channel::byte_channel;
use crate::error::SchemeError;
use crate::program::{is_well_nested, program_of, well_nested};
use crate::session::{drain_outcome, push_outcome, BrainfuckEntry};
use redox_scheme::OpenResult;
use std::collections::BTreeMap;
use std::sync::mpsc::{Receiver, Sender};
use vstd::prelude::*;

verus! {

broadcast use {vstd::std_specs::btree::group_btree_axioms, vstd::laws_cmp::group_laws_cmp};

/// What a handle stands for.
#[derive(Clone, Copy, Debug, PartialEq, Eq, Structural)]
pub enum EntryKind {
    /// The right to open programs.
    Root,
    /// One running program.
    Program,
}

/// An entry of the handle table.
pub enum SchemeEntry {
    /// The root: it has no channels and takes no reads or writes.
    SchemeRoot,
    /// The channels of one running program.
    Brainfuck(BrainfuckEntry),
}

impl SchemeEntry {
    /// What the entry stands for.
    pub open spec fn kind(self) -> EntryKind {
        match self {
            SchemeEntry::SchemeRoot => EntryKind::Root,
            SchemeEntry::Brainfuck(_) => EntryKind::Program,
        }
    }

    /// The channels of the entry, for change; `NoSuchHandle` for the root,
    /// which has none. What is done to the channels is done to the entry.
    pub fn as_brainfuck_mut(&mut self) -> (result: Result<&mut BrainfuckEntry, SchemeError>)
        ensures
            match result {
                Ok(entry) => {
                    &&& *old(self) == SchemeEntry::Brainfuck(*entry)
                    &&& *final(self) == SchemeEntry::Brainfuck(*final(entry))
                },
                Err(error) => {
                    &&& *old(self) == SchemeEntry::SchemeRoot
                    &&& *final(self) == SchemeEntry::SchemeRoot
                    &&& error == SchemeError::NoSuchHandle
                },
            },
    {
        match self {
            SchemeEntry::SchemeRoot => Err(SchemeError::NoSuchHandle),
            SchemeEntry::Brainfuck(entry) => Ok(entry),
        }
    }

    /// The channels of the entry; `NoSuchHandle` for the root, which has
    /// none.
    pub fn as_brainfuck(&self) -> (result: Result<&BrainfuckEntry, SchemeError>)
        ensures
            match result {
                Ok(entry) => *self == SchemeEntry::Brainfuck(*entry),
                Err(error) => *self == SchemeEntry::SchemeRoot && error
                    == SchemeError::NoSuchHandle,
            },
    {
        match self {
            SchemeEntry::SchemeRoot => Err(SchemeError::NoSuchHandle),
            SchemeEntry::Brainfuck(entry) => Ok(entry),
        }
    }
}

/// The number `steps` after `from`, where the number after the largest is
/// zero.
pub open spec fn id_after(from: usize, steps: int) -> usize {
    if from + steps <= usize::MAX {
        (from + steps) as usize
    } else {
        (from + steps - usize::MAX - 1) as usize
    }
}

/// How many steps lead from `from` to `to`, where the number after the
/// largest is zero.
pub open spec fn id_distance(from: usize, to: usize) -> int {
    if to >= from {
        to - from
    } else {
        to - from + usize::MAX + 1
    }
}

/// What each entry of `entries` stands for.
pub open spec fn kinds_of(entries: Map<usize, SchemeEntry>) -> Map<usize, EntryKind> {
    Map::new(|id: usize| entries.contains_key(id), |id: usize| entries[id].kind())
}

/// The model of the handle table.
pub struct SchemeView {
    /// The open handles and what each stands for.
    pub handles: Map<usize, EntryKind>,
    /// The counter: the number at which the search for the next handle
    /// begins.
    pub next_id: usize,
    /// Whether the table was marked as damaged.
    pub poisoned: bool,
}

impl SchemeView {
    /// `id` is the number that is handed out next: the first from the
    /// counter on that is no open handle.
    pub open spec fn first_free(self, id: usize) -> bool {
        &&& !self.handles.contains_key(id)
        &&& forall|steps: int|
            0 <= steps < id_distance(self.next_id, id) ==> self.handles.contains_key(
                #[trigger] id_after(self.next_id, steps),
            )
    }

    /// `id` is the open handle of a running program.
    pub open spec fn is_program(self, id: usize) -> bool {
        self.handles.contains_key(id) && self.handles[id] == EntryKind::Program
    }

    /// `id` is an open root handle.
    pub open spec fn is_root(self, id: usize) -> bool {
        self.handles.contains_key(id) && self.handles[id] == EntryKind::Root
    }

    /// The table with its counter just past `id`.
    pub open spec fn counted_past(self, id: usize) -> SchemeView {
        SchemeView { next_id: id_after(id, 1), ..self }
    }

    /// The table after `id` was handed out for a handle that stands for
    /// `kind`: the handle is open and the counter is just past it.
    pub open spec fn with_handle(self, id: usize, kind: EntryKind) -> SchemeView {
        SchemeView { handles: self.handles.insert(id, kind), next_id: id_after(id, 1), ..self }
    }

    /// The table with the handle `id` removed.
    pub open spec fn without_handle(self, id: usize) -> SchemeView {
        SchemeView { handles: self.handles.remove(id), ..self }
    }

    /// The error with which opening `code` through `dir_fd` fails, if it
    /// fails: a damaged table comes first, then a handle that is not open,
    /// then one that is not the root, then brackets that do not nest.
    pub open spec fn open_error(self, dir_fd: usize, code: Seq<char>) -> Option<SchemeError> {
        if self.poisoned {
            Some(SchemeError::Unrecoverable)
        } else if !self.handles.contains_key(dir_fd) {
            Some(SchemeError::NoSuchHandle)
        } else if self.handles[dir_fd] != EntryKind::Root {
            Some(SchemeError::AccessDenied)
        } else if !well_nested(code) {
            Some(SchemeError::MalformedProgram)
        } else {
            None
        }
    }

    /// The error with which a read, a write or a close of `id` fails
    /// before it reaches the program, if it does.
    pub open spec fn handle_error(self, id: usize) -> Option<SchemeError> {
        if self.poisoned {
            Some(SchemeError::Unrecoverable)
        } else if !self.is_program(id) {
            Some(SchemeError::NoSuchHandle)
        } else {
            None
        }
    }
}

/// The number that is handed out is determined by the table: no other
/// number is the first free one from the counter on.
pub proof fn lemma_first_free_is_one(table: SchemeView, id: usize, other: usize)
    requires
        table.first_free(id),
        table.first_free(other),
    ensures
        id == other,
{
    if id_distance(table.next_id, id) < id_distance(table.next_id, other) {
        assert(id == id_after(table.next_id, id_distance(table.next_id, id)));
    } else if id_distance(table.next_id, other) < id_distance(table.next_id, id) {
        assert(other == id_after(table.next_id, id_distance(table.next_id, other)));
    }
}

/// Two numbers handed out one after the other differ, as long as a second
/// number was free: the counter has moved past the first.
pub proof fn lemma_next_number_differs(table: SchemeView, first: usize, second: usize, free: usize)
    requires
        table.first_free(first),
        table.counted_past(first).first_free(second),
        free != first,
        !table.handles.contains_key(free),
    ensures
        second != first,
{
    if second == first {
        // from the counter, just past `first`, every other number comes before `first`
        let after = table.counted_past(first);
        let steps = id_distance(after.next_id, free);
        assert(0 <= steps < id_distance(after.next_id, second));
        assert(free == id_after(after.next_id, steps));
        assert(after.handles.contains_key(id_after(after.next_id, steps)));
    }
}

/// A set that holds the `n` numbers from `start` on has at least `n`
/// elements.
proof fn lemma_run_counts(ids: Set<usize>, start: usize, n: nat)
    requires
        ids.finite(),
        n <= usize::MAX + 1,
        forall|steps: int| 0 <= steps < n ==> ids.contains(#[trigger] id_after(start, steps)),
    ensures
        n <= ids.len(),
    decreases n,
{
    if n > 0 {
        let last = id_after(start, n - 1);
        assert(ids.contains(last));
        let rest = ids.remove(last);
        assert forall|steps: int| 0 <= steps < n - 1 implies rest.contains(
            #[trigger] id_after(start, steps),
        ) by {
            assert(ids.contains(id_after(start, steps)));
        }
        lemma_run_counts(rest, start, (n - 1) as nat);
    }
}

/// `redox_scheme::OpenResult`, the answer of a namespace to an open.
/// Nothing inside it is visible here.
#[verifier::external_type_specification]
#[verifier::external_body]
pub struct ExOpenResult(OpenResult);

/// The answer to an open that names the handle `number` of this namespace,
/// with the flags whose bits are `flags`: `OpenResult::ThisScheme` with
/// that number and `NewFdFlags::from_bits_retain` of those bits. The value
/// is opaque here; it holds the number and the flags and nothing else, so
/// the same number and bits always give the same value.
pub uninterp spec fn open_answer(number: usize, flags: u8) -> OpenResult;

/// No flag set in the answer to an open.
pub const NO_FLAGS: u8 = 0;

/// `OpenResult::ThisScheme` with `NewFdFlags::from_bits_retain`: the answer
/// that names a handle of this namespace, with the flags whose bits are
/// `flags`.
#[verifier::external_body]
fn opened_here(number: usize, flags: u8) -> (answer: OpenResult)
    ensures
        answer == open_answer(number, flags),
{
    OpenResult::ThisScheme { number, flags: syscall::schemev2::NewFdFlags::from_bits_retain(flags) }
}

/// A program that was opened and is yet to be run.
pub struct Launch {
    /// The handle under which the program was opened.
    pub id: usize,
    /// The machine, at the start of the program.
    pub interpreter: BrainfuckInterpreter,
    /// Where the machine receives its input.
    pub input: Receiver<u8>,
    /// Where the machine sends its output.
    pub output: Sender<u8>,
}

impl Launch {
    /// The answer that tells the caller of the open its handle, with no
    /// flag set.
    pub fn open_result(&self) -> (answer: OpenResult)
        ensures
            answer == open_answer(self.id, NO_FLAGS),
    {
        opened_here(self.id, NO_FLAGS)
    }
}

/// The handle table.
pub struct BrainfuckScheme {
    next_id: usize,
    handles: BTreeMap<usize, SchemeEntry>,
    poisoned: bool,
}

impl View for BrainfuckScheme {
    type V = SchemeView;

    open spec fn view(&self) -> SchemeView {
        SchemeView {
            handles: kinds_of(self.entries()),
            next_id: self.counter(),
            poisoned: self.damaged(),
        }
    }
}

impl BrainfuckScheme {
    /// The entries of the table: each open handle with what it holds, its
    /// channel ends among that.
    pub closed spec fn entries(&self) -> Map<usize, SchemeEntry> {
        self.handles@
    }

    /// The counter: the number at which the search for the next handle
    /// begins.
    pub closed spec fn counter(&self) -> usize {
        self.next_id
    }

    /// Whether the table was marked as damaged.
    pub closed spec fn damaged(&self) -> bool {
        self.poisoned
    }

    /// A table without handles, its counter at zero.
    pub fn new() -> (scheme: BrainfuckScheme)
        ensures
            scheme.entries() == Map::<usize, SchemeEntry>::empty(),
            scheme@.handles == Map::<usize, EntryKind>::empty(),
            scheme@.next_id == 0,
            !scheme@.poisoned,
    {
        let scheme = BrainfuckScheme { next_id: 0, handles: BTreeMap::new(), poisoned: false };
        assert(scheme@.handles =~= Map::<usize, EntryKind>::empty());
        scheme
    }

    /// Hands out a number for a new handle: the first from the counter on
    /// that is no open handle, starting again at zero after the largest
    /// number. The counter moves just past the number that was handed out;
    /// the entries stay as they are.
    pub fn next_id(&mut self) -> (id: usize)
        ensures
            old(self)@.first_free(id),
            final(self)@ == old(self)@.counted_past(id),
            final(self).entries() == old(self).entries(),
    {
        let count = self.handles.len();
        let ghost start = self.next_id;
        let ghost mut steps: int = 0;
        while self.handles.contains_key(&self.next_id)
            invariant
                self.handles@ == old(self).handles@,
                self.poisoned == old(self).poisoned,
                start == old(self).next_id,
                count == self.handles@.len(),
                self.handles@.dom().finite(),
                0 <= steps <= count,
                self.next_id == id_after(start, steps),
                forall|j: int|
                    0 <= j < steps ==> self.handles@.contains_key(#[trigger] id_after(start, j)),
            decreases count - steps,
        {
            proof {
                assert forall|j: int| 0 <= j < steps + 1 implies self.handles@.dom().contains(
                    #[trigger] id_after(start, j),
                ) by {
                    if j < steps {
                        assert(self.handles@.contains_key(id_after(start, j)));
                    }
                }
                lemma_run_counts(self.handles@.dom(), start, (steps + 1) as nat);
                steps = steps + 1;
            }
            self.next_id = self.next_id.wrapping_add(1);
        }
        let id = self.next_id;
        self.next_id = id.wrapping_add(1);
        proof {
            assert(id_distance(start, id) == steps);
            assert(self@.handles =~= old(self)@.handles);
        }
        id
    }

    /// Opens the root: takes the next number as a handle that stands for
    /// the right to open programs. On a damaged table nothing is done.
    pub fn scheme_root(&mut self) -> (result: Result<usize, SchemeError>)
        ensures
            match result {
                Ok(id) => {
                    &&& !old(self)@.poisoned
                    &&& old(self)@.first_free(id)
                    &&& final(self)@ == old(self)@.with_handle(id, EntryKind::Root)
                    &&& final(self).entries() == old(self).entries().insert(
                        id,
                        SchemeEntry::SchemeRoot,
                    )
                },
                Err(error) => {
                    &&& old(self)@.poisoned
                    &&& error == SchemeError::Unrecoverable
                    &&& final(self)@ == old(self)@
                    &&& final(self).entries() == old(self).entries()
                },
            },
    {
        if self.poisoned {
            return Err(SchemeError::Unrecoverable);
        }
        let id = self.next_id();
        self.handles.insert(id, SchemeEntry::SchemeRoot);
        assert(self@.handles =~= old(self)@.with_handle(id, EntryKind::Root).handles);
        Ok(id)
    }

    /// Opens the program whose text is `path` through the root handle
    /// `dir_fd`: makes its channels and its machine and takes the next
    /// number as its handle. The machine is handed back unrun. The new
    /// entry is a program's; every other entry stays as it is.
    ///
    /// Fails, and leaves the table with all its entries and its counter as
    /// they are, where the table is damaged, `dir_fd` is not open or not
    /// the root, or the brackets of `path` do not nest.
    pub fn openat(&mut self, dir_fd: usize, path: &str) -> (result: Result<Launch, SchemeError>)
        ensures
            match result {
                Ok(launch) => {
                    &&& old(self)@.open_error(dir_fd, path@) is None
                    &&& old(self)@.first_free(launch.id)
                    &&& final(self)@ == old(self)@.with_handle(launch.id, EntryKind::Program)
                    &&& final(self).entries()[launch.id] is Brainfuck
                    &&& final(self).entries() == old(self).entries().insert(
                        launch.id,
                        final(self).entries()[launch.id],
                    )
                    &&& launch.interpreter@ == MachineView::start(path@)
                    &&& launch.interpreter@.wf()
                },
                Err(error) => {
                    &&& old(self)@.open_error(dir_fd, path@) == Some(error)
                    &&& final(self)@ == old(self)@
                    &&& final(self).entries() == old(self).entries()
                },
            },
    {
        if self.poisoned {
            return Err(SchemeError::Unrecoverable);
        }
        match self.handles.get(&dir_fd) {
            None => {
                return Err(SchemeError::NoSuchHandle);
            },
            Some(SchemeEntry::Brainfuck(_)) => {
                return Err(SchemeError::AccessDenied);
            },
            Some(SchemeEntry::SchemeRoot) => {},
        }
        let code = program_of(path);
        if !is_well_nested(&code) {
            return Err(SchemeError::MalformedProgram);
        }
        let (input_sender, input_receiver) = byte_channel();
        let (output_sender, output_receiver) = byte_channel();
        let entry = BrainfuckEntry { input_channel: input_sender, output_channel: output_receiver };
        let id = self.next_id();
        self.handles.insert(id, SchemeEntry::Brainfuck(entry));
        assert(self@.handles =~= old(self)@.with_handle(id, EntryKind::Program).handles);
        Ok(
            Launch {
                id,
                interpreter: BrainfuckInterpreter::new(code),
                input: input_receiver,
                output: output_sender,
            },
        )
    }

    /// The session behind the handle `fd`: the channel ends that the table
    /// holds for it.
    ///
    /// Fails with `Unrecoverable` on a damaged table and with
    /// `NoSuchHandle` where `fd` is not the handle of a program.
    pub fn session(&self, fd: usize) -> (result: Result<&BrainfuckEntry, SchemeError>)
        ensures
            match result {
                Ok(session) => {
                    &&& self@.handle_error(fd) is None
                    &&& self.entries()[fd] == SchemeEntry::Brainfuck(*session)
                },
                Err(error) => self@.handle_error(fd) == Some(error),
            },
    {
        if self.poisoned {
            return Err(SchemeError::Unrecoverable);
        }
        match self.handles.get(&fd) {
            None => Err(SchemeError::NoSuchHandle),
            Some(entry) => entry.as_brainfuck(),
        }
    }

    /// Reads output of the program `fd` into `buf` without waiting, as
    /// [`BrainfuckEntry::drain_output`] does on the session that
    /// [`BrainfuckScheme::session`] gives for `fd`.
    ///
    /// Fails with `Unrecoverable` on a damaged table and with
    /// `NoSuchHandle` where `fd` is not the handle of a program; `buf` is
    /// then as before.
    pub fn read(&self, fd: usize, buf: &mut [u8]) -> (result: Result<usize, SchemeError>)
        ensures
            match self@.handle_error(fd) {
                Some(error) => result == Err::<usize, SchemeError>(error) && final(buf)@ == old(
                    buf,
                )@,
                None => drain_outcome(old(buf)@, final(buf)@, result),
            },
    {
        match self.session(fd) {
            Err(error) => Err(error),
            Ok(session) => session.drain_output(buf),
        }
    }

    /// Writes `buf` to the input of the program `fd`, as
    /// [`BrainfuckEntry::push_input`] does on the session that
    /// [`BrainfuckScheme::session`] gives for `fd`.
    ///
    /// Fails with `Unrecoverable` on a damaged table and with
    /// `NoSuchHandle` where `fd` is not the handle of a program.
    pub fn write(&self, fd: usize, buf: &[u8]) -> (result: Result<usize, SchemeError>)
        ensures
            match self@.handle_error(fd) {
                Some(error) => result == Err::<usize, SchemeError>(error),
                None => push_outcome(buf@, result),
            },
    {
        match self.session(fd) {
            Err(error) => Err(error),
            Ok(session) => session.push_input(buf),
        }
    }

    /// Closes the handle `id`: takes its entry out of the table and drops
    /// its channel ends, which closes the program's input. Every other
    /// entry and the counter stay as they are.
    ///
    /// Fails with `Unrecoverable` on a damaged table and with
    /// `NoSuchHandle` where `id` is not open; the table is then as before,
    /// with all its entries.
    pub fn close(&mut self, id: usize) -> (result: Result<(), SchemeError>)
        ensures
            match result {
                Ok(_) => {
                    &&& !old(self)@.poisoned
                    &&& old(self)@.handles.contains_key(id)
                    &&& final(self)@ == old(self)@.without_handle(id)
                    &&& final(self).entries() == old(self).entries().remove(id)
                },
                Err(error) => {
                    &&& final(self)@ == old(self)@
                    &&& final(self).entries() == old(self).entries()
                    &&& error == if old(self)@.poisoned {
                        SchemeError::Unrecoverable
                    } else {
                        SchemeError::NoSuchHandle
                    }
                    &&& !old(self)@.poisoned ==> !old(self)@.handles.contains_key(id)
                },
            },
    {
        if self.poisoned {
            return Err(SchemeError::Unrecoverable);
        }
        match self.handles.remove(&id) {
            Some(entry) => {
                if let SchemeEntry::Brainfuck(session) = entry {
                    session.close();
                }
                assert(self@.handles =~= old(self)@.without_handle(id).handles);
                Ok(())
            },
            None => {
                assert(self.handles@ =~= old(self).handles@);
                Err(SchemeError::NoSuchHandle)
            },
        }
    }

    /// Closes the handle `id` if it is open, and does nothing otherwise.
    /// Every other entry stays as it is; on a damaged table all do.
    pub fn on_close(&mut self, id: usize)
        ensures
            final(self)@ == if old(self)@.poisoned {
                old(self)@
            } else {
                old(self)@.without_handle(id)
            },
            final(self).entries() == if old(self)@.poisoned {
                old(self).entries()
            } else {
                old(self).entries().remove(id)
            },
    {
        let closed = self.close(id);
        proof {
            if closed is Err && !old(self)@.poisoned {
                assert(old(self)@.without_handle(id).handles =~= old(self)@.handles);
                assert(old(self).entries().remove(id) =~= old(self).entries());
            }
        }
    }

    /// Marks the table as damaged: from now on every operation on it fails
    /// with `Unrecoverable` and changes nothing.
    pub fn mark_unrecoverable(&mut self)
        ensures
            final(self)@.poisoned,
            final(self)@.handles == old(self)@.handles,
            final(self)@.next_id == old(self)@.next_id,
            final(self).entries() == old(self).entries(),
    {
        self.poisoned = true;
    }
}

} // verus!
