//! The decoded event, its printed line, and what becomes of its descriptor.
use crate::action::{spec_actions, Action, ActionView};
use crate::c_enum::{spec_flags_in, spec_test, EnumValues, Flag};
use crate::events::{spec_permission_bits, FanEvents};
use crate::flags::Opt;
use crate::path::{spec_paths, spec_under_any};
use crate::record::RawRecord;
use crate::text::{decimal_text, push_all, spec_decimal_text, spec_join};
use vstd::prelude::*;
use vstd::string::StringSliceAdditionalSpecFns;

verus! {

/// The byte between the fields of a line.
pub const TAB: u8 = 0x09;

/// The byte at the end of a line.
pub const NEWLINE: u8 = 0x0a;

/// The byte between the names of the events of a line.
pub const PIPE: u8 = 0x7c;

/// The byte that stands for a field without a value.
pub const DASH: u8 = 0x2d;

/// One event, decoded.
#[derive(Clone, Debug, PartialEq, Eq)]
pub struct EventEntry {
    /// The events that happened.
    pub mask: u64,
    /// The descriptor of the file, where the event has one.
    pub fd: Option<i32>,
    /// The id of the process that caused the event.
    pub pid: Option<u32>,
    /// The path that the descriptor was resolved to.
    pub path: Option<Vec<u8>>,
}

/// The text of a field: the number in base ten, or a dash where there is none.
pub open spec fn spec_field(field: Option<int>) -> Seq<u8> {
    match field {
        Some(value) => spec_decimal_text(value),
        None => seq![DASH],
    }
}

/// The names of the events of `mask`, in the order of the vocabulary.
pub open spec fn spec_event_names(mask: u64) -> Seq<Seq<u8>> {
    spec_flags_in(FanEvents::spec_values(), mask).map_values(|flag: Flag| flag.name.spec_bytes())
}

/// The names of the events of `mask` with a `|` between neighbours.
pub open spec fn spec_mask_text(mask: u64) -> Seq<u8> {
    spec_join(spec_event_names(mask), seq![PIPE])
}

/// The line of an entry, without the end of line: the events, the descriptor,
/// the process and the path, with a tab between them.
pub open spec fn spec_line(entry: EventEntry) -> Seq<u8> {
    spec_mask_text(entry.mask) + seq![TAB] + spec_field(
        match entry.fd {
            Some(fd) => Some(fd as int),
            None => None,
        },
    ) + seq![TAB] + spec_field(
        match entry.pid {
            Some(pid) => Some(pid as int),
            None => None,
        },
    ) + seq![TAB] + match entry.path {
        Some(path) => path@,
        None => seq![DASH],
    }
}

/// Whether an event of `mask` holds its process until it is answered.
pub open spec fn spec_awaits_answer(mask: u64) -> bool {
    mask & spec_permission_bits() != 0
}

/// Whether an entry is reported under the options `opt`.
pub open spec fn spec_reported(entry: EventEntry, opt: Opt) -> bool {
    match entry.path {
        Some(path) => opt.spec_admits(path@),
        None => true,
    }
}

/// The steps for one entry: its descriptor is closed first, unless the event
/// awaits an answer; then the line is written, unless the entry is filtered
/// out.
pub open spec fn spec_plan(entry: EventEntry, opt: Opt) -> Seq<ActionView> {
    let close = match entry.fd {
        Some(fd) => if spec_awaits_answer(entry.mask) {
            Seq::empty()
        } else {
            seq![ActionView::Close(fd)]
        },
        None => Seq::empty(),
    };
    let emit = if spec_reported(entry, opt) {
        seq![ActionView::Emit(spec_line(entry) + seq![NEWLINE])]
    } else {
        Seq::empty()
    };
    close + emit
}

/// Whether an event of `mask` holds its process until it is answered.
pub fn awaits_answer(mask: u64) -> (held: bool)
    ensures
        held == spec_awaits_answer(mask),
{
    mask & FanEvents::permission_bits() != 0
}

/// The names of the events of `mask` with a `|` between neighbours.
pub fn mask_text(mask: u64) -> (text: Vec<u8>)
    ensures
        text@ == spec_mask_text(mask),
{
    let all = FanEvents::values().enumerate();
    let ghost flags = FanEvents::spec_values();
    let ghost chosen = |flag: Flag| spec_test(mask, flag);
    let ghost name = |flag: Flag| flag.name.spec_bytes();
    let mut text: Vec<u8> = Vec::new();
    let mut first = true;
    let mut i: usize = 0;
    proof {
        assert(flags.take(0).filter(chosen) =~= Seq::<Flag>::empty());
        assert(flags.take(0).filter(chosen).map_values(name) =~= Seq::<Seq<u8>>::empty());
    }
    while i < all.len()
        invariant
            i <= all@.len(),
            all@ == flags,
            flags == FanEvents::spec_values(),
            chosen == (|flag: Flag| spec_test(mask, flag)),
            name == (|flag: Flag| flag.name.spec_bytes()),
            first == (flags.take(i as int).filter(chosen).len() == 0),
            text@ == spec_join(flags.take(i as int).filter(chosen).map_values(name), seq![PIPE]),
        decreases all@.len() - i,
    {
        let flag = all[i];
        proof {
            let before = flags.take(i as int);
            assert(flags.take(i + 1) =~= before.push(flag));
            before.lemma_filter_push(flag, chosen);
            if spec_test(mask, flag) {
                let names = before.filter(chosen).map_values(name);
                assert(before.filter(chosen).push(flag).map_values(name) =~= names.push(
                    name(flag),
                ));
                assert(names.push(name(flag)).drop_last() =~= names);
            }
        }
        if flag.test(mask) {
            if !first {
                text.push(PIPE);
            }
            push_all(&mut text, flag.name.as_bytes());
            first = false;
        }
        i += 1;
    }
    assert(flags.take(all@.len() as int) =~= flags);
    text
}

impl EventEntry {
    /// The entry of a record whose descriptor was resolved to `path`.
    ///
    /// A record without a descriptor has no path either, whatever `path` is.
    /// A negative process id is left out.
    pub fn new(record: &RawRecord, path: Option<Vec<u8>>) -> (entry: EventEntry)
        ensures
            entry.mask == record.mask,
            entry.fd == if record.fd >= 0 {
                Some(record.fd)
            } else {
                None
            },
            entry.pid == if record.pid >= 0 {
                Some(record.pid as u32)
            } else {
                None
            },
            entry.path == if record.fd >= 0 {
                path
            } else {
                None
            },
    {
        EventEntry {
            mask: record.mask,
            fd: if record.fd >= 0 {
                Some(record.fd)
            } else {
                None
            },
            pid: if record.pid >= 0 {
                Some(record.pid as u32)
            } else {
                None
            },
            path: if record.fd >= 0 {
                path
            } else {
                None
            },
        }
    }

    /// The text of a field: the number in base ten, or a dash where there is
    /// none.
    pub fn display_field(field: &Option<i64>) -> (text: Vec<u8>)
        ensures
            text@ == spec_field(
                match *field {
                    Some(value) => Some(value as int),
                    None => None,
                },
            ),
    {
        match field {
            Some(value) => decimal_text(*value),
            None => {
                let mut text: Vec<u8> = Vec::new();
                text.push(DASH);
                assert(text@ =~= seq![DASH]);
                text
            },
        }
    }

    /// Appends the line of the entry to `out`, without an end of line.
    pub fn write_to(&self, out: &mut Vec<u8>)
        ensures
            final(out)@ == old(out)@ + spec_line(*self),
    {
        let fd: Option<i64> = match self.fd {
            Some(fd) => Some(fd as i64),
            None => None,
        };
        let pid: Option<i64> = match self.pid {
            Some(pid) => Some(pid as i64),
            None => None,
        };
        let mask = mask_text(self.mask);
        let fd_text = EventEntry::display_field(&fd);
        let pid_text = EventEntry::display_field(&pid);
        push_all(out, mask.as_slice());
        out.push(TAB);
        push_all(out, fd_text.as_slice());
        out.push(TAB);
        push_all(out, pid_text.as_slice());
        out.push(TAB);
        match &self.path {
            Some(path) => push_all(out, path.as_slice()),
            None => out.push(DASH),
        }
        assert(out@ =~= old(out)@ + spec_line(*self));
    }

    /// The steps to take for this entry, in order.
    ///
    /// The descriptor is closed first, unless the event awaits an answer: then
    /// it stays open for the answer. The line is written after that, unless
    /// the options filter the entry out.
    pub fn plan(&self, opt: &Opt) -> (actions: Vec<Action>)
        ensures
            spec_actions(actions@) == spec_plan(*self, *opt),
    {
        let mut actions: Vec<Action> = Vec::new();
        if let Some(fd) = self.fd {
            if !awaits_answer(self.mask) {
                actions.push(Action::Close(fd));
            }
        }
        let reported = match &self.path {
            Some(path) => opt.admits(path.as_slice()),
            None => true,
        };
        if reported {
            let mut line: Vec<u8> = Vec::new();
            self.write_to(&mut line);
            line.push(NEWLINE);
            assert(line@ =~= spec_line(*self) + seq![NEWLINE]);
            actions.push(Action::Emit(line));
        }
        assert(spec_actions(actions@) =~= spec_plan(*self, *opt));
        actions
    }
}

/// The descriptor of an event that awaits an answer is never closed by the
/// steps for its entry.
pub proof fn lemma_held_descriptor_stays_open(entry: EventEntry, opt: Opt)
    requires
        spec_awaits_answer(entry.mask),
    ensures
        forall|i: int|
            0 <= i < spec_plan(entry, opt).len() ==> !(#[trigger] spec_plan(entry, opt)[i]
                is Close),
{
}

/// The descriptor of an event that awaits no answer is closed exactly once, and
/// before anything is written.
pub proof fn lemma_free_descriptor_is_closed_first(entry: EventEntry, opt: Opt)
    requires
        !spec_awaits_answer(entry.mask),
        entry.fd is Some,
    ensures
        spec_plan(entry, opt).len() >= 1,
        spec_plan(entry, opt)[0] == ActionView::Close(entry.fd->0),
        forall|i: int|
            1 <= i < spec_plan(entry, opt).len() ==> !(#[trigger] spec_plan(entry, opt)[i]
                is Close),
{
}

/// Where events are filtered, a line is written only for a path that is a
/// watched path or lies below one.
pub proof fn lemma_written_lies_under_watch(entry: EventEntry, opt: Opt, i: int)
    requires
        opt.spec_filters(),
        entry.path is Some,
        0 <= i < spec_plan(entry, opt).len(),
        spec_plan(entry, opt)[i] is Emit,
    ensures
        spec_under_any(entry.path->0@, spec_paths(opt.paths@)),
{
}

} // verus!
