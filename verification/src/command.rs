//! The control channel: one line of the operator becomes one answer to the
//! kernel.
//!
//! A line holds a keyword, `ALLOW` or `DENY`, white space, and the number of
//! the descriptor that the event was printed with. The keywords are the names
//! of the answers without their prefix `FAN_`.
//!
//! The answer is written as the kernel reads it, in the 8 bytes of its
//! `struct fanotify_response`: the descriptor in the first four, the code of
//! the answer in the last four, both in the byte order of the machine.
use crate::action::{spec_actions, Action, ActionView};
use crate::c_enum::{lemma_parse_inverts_render, spec_parse, EnumValues, Flag};
use crate::events::FanResponse;
use crate::record::{
    lemma_i32_round_trip, lemma_u32_round_trip, spec_i32_at, spec_i32_bytes, spec_u32_at,
    spec_u32_bytes, write_i32, write_u32, ByteOrder,
};
use crate::text::{
    lemma_decimal_text_is_one_word, lemma_decimal_text_reads_back, lemma_split_around_stop,
    lemma_split_without_stop, parse_i32, scan, spec_ascii, spec_decimal_text, spec_parse_i32,
    spec_split, whitespace,
};
use vstd::prelude::*;
use vstd::string::StringExecFns;

verus! {

/// What the names of the answers start with, and the keywords leave out.
pub const PREFIX: &'static str = "FAN_";

/// Why a line of the control channel led to no answer.
#[derive(Clone, Copy, Debug, PartialEq, Eq, Structural)]
pub enum CommandError {
    /// The channel is at its end: no line was read.
    EndOfInput,
    /// The line is no command.
    InvalidInput,
}

impl CommandError {
    /// Whether the loop ends on this error. It ends with the channel; a line
    /// that is no command is reported, and the next line is waited for.
    pub fn ends_loop(&self) -> (fatal: bool)
        ensures
            fatal == (*self == CommandError::EndOfInput),
    {
        match self {
            CommandError::EndOfInput => true,
            CommandError::InvalidInput => false,
        }
    }
}

/// The answer that `keyword` stands for: the one whose name is the keyword
/// behind `FAN_`.
pub open spec fn spec_keyword(keyword: Seq<char>) -> Option<Flag> {
    spec_parse(FanResponse::spec_values(), PREFIX@ + keyword)
}

/// The command of a line: the answer of its first field and the descriptor of
/// its second. Fields behind the second are not looked at.
pub open spec fn spec_command(line: Seq<char>) -> Option<(Flag, i32)> {
    let fields = spec_split(line, whitespace());
    if fields.len() < 2 {
        None
    } else {
        match (spec_keyword(fields[0]), spec_parse_i32(fields[1])) {
            (Some(answer), Some(fd)) => Some((answer, fd)),
            _ => None,
        }
    }
}

/// The response record for the answer `code` to the event of descriptor `fd`:
/// the four bytes of the descriptor, then the four bytes of the code.
pub open spec fn spec_response(code: u32, fd: i32, order: ByteOrder) -> Seq<u8> {
    spec_i32_bytes(fd, order) + spec_u32_bytes(code, order)
}

/// What follows from a read of `nread` bytes that gave `line`.
///
/// A command is answered and its descriptor closed after that. The end of the
/// channel and a line that is no command are errors, and nothing is written.
pub open spec fn spec_handle_command(nread: usize, line: Seq<char>, order: ByteOrder) -> Result<
    Seq<ActionView>,
    CommandError,
> {
    if nread == 0 {
        Err(CommandError::EndOfInput)
    } else {
        match spec_command(line) {
            Some((answer, fd)) => Ok(
                seq![
                    ActionView::Respond(spec_response(answer.bits as u32, fd, order)),
                    ActionView::Close(fd),
                ],
            ),
            None => Err(CommandError::InvalidInput),
        }
    }
}

/// The answer that `keyword` stands for.
pub fn parse_keyword(keyword: &str) -> (answer: Option<Flag>)
    ensures
        answer == spec_keyword(keyword@),
{
    let name = PREFIX.to_owned().concat(keyword);
    match FanResponse::values().parse(name.as_str()) {
        Ok(answer) => Some(answer),
        Err(_) => None,
    }
}

/// The command of a line: its answer and its descriptor.
pub fn parse_command(line: &str) -> (command: Option<(Flag, i32)>)
    ensures
        command == spec_command(line@),
{
    let fields = scan(line);
    if fields.len() < 2 {
        return None;
    }
    let answer = parse_keyword(fields[0].as_str());
    let fd = parse_i32(fields[1].as_str());
    match (answer, fd) {
        (Some(answer), Some(fd)) => Some((answer, fd)),
        _ => None,
    }
}

/// The response record for the answer `code` to the event of descriptor `fd`.
pub fn encode_response(code: u32, fd: i32, order: ByteOrder) -> (record: Vec<u8>)
    ensures
        record@ == spec_response(code, fd, order),
        record@.len() == 8,
{
    let mut record: Vec<u8> = Vec::new();
    write_i32(&mut record, fd, order);
    write_u32(&mut record, code, order);
    record
}

/// Decides what follows from one read of the control channel, which returned
/// `nread` bytes and the text `line`.
///
/// Where the line is a command, the response record is written to the
/// notification handle first and the descriptor is closed after that, whether
/// or not the write succeeded.
pub fn handle_command(nread: usize, line: &str, order: ByteOrder) -> (handled: Result<
    Vec<Action>,
    CommandError,
>)
    ensures
        match handled {
            Ok(actions) => spec_handle_command(nread, line@, order) == Ok::<
                Seq<ActionView>,
                CommandError,
            >(spec_actions(actions@)),
            Err(error) => spec_handle_command(nread, line@, order) == Err::<
                Seq<ActionView>,
                CommandError,
            >(error),
        },
{
    if nread == 0 {
        return Err(CommandError::EndOfInput);
    }
    match parse_command(line) {
        Some((answer, fd)) => {
            proof {
                lemma_answer_codes(answer);
            }
            let record = encode_response(answer.bits as u32, fd, order);
            let mut actions: Vec<Action> = Vec::new();
            actions.push(Action::Respond(record));
            actions.push(Action::Close(fd));
            assert(spec_actions(actions@) =~= seq![
                ActionView::Respond(spec_response(answer.bits as u32, fd, order)),
                ActionView::Close(fd),
            ]);
            Ok(actions)
        },
        None => Err(CommandError::InvalidInput),
    }
}

/// An answer of the vocabulary has one of its two codes.
pub proof fn lemma_answer_codes(answer: Flag)
    requires
        FanResponse::spec_values().contains(answer),
    ensures
        answer.bits == 1 || answer.bits == 2,
{
    let all = FanResponse::spec_values();
    let at = choose|at: int| 0 <= at < all.len() && all[at] == answer;
    assert(all[0].bits == 1 && all[1].bits == 2);
}

/// A response record holds its descriptor in the first four bytes and its
/// code in the last four: both read back as they were written.
pub proof fn lemma_response_round_trip(code: u32, fd: i32, order: ByteOrder)
    ensures
        spec_response(code, fd, order).len() == 8,
        spec_i32_at(spec_response(code, fd, order), 0, order) == fd,
        spec_u32_at(spec_response(code, fd, order), 4, order) == code,
{
    let record = spec_response(code, fd, order);
    assert(record.subrange(0, 4) =~= spec_i32_bytes(fd, order));
    assert(record.subrange(4, 8) =~= spec_u32_bytes(code, order));
    lemma_i32_round_trip(record, 0, fd, order);
    lemma_u32_round_trip(record, 4, code, order);
}

/// The line that answers the event of descriptor `fd`: the keyword, a space,
/// and the descriptor as it was printed with the event.
pub open spec fn spec_answer_line(keyword: Seq<char>, fd: i32) -> Seq<char> {
    keyword + seq![' '] + spec_ascii(spec_decimal_text(fd as int))
}

/// The line of a keyword and a printed descriptor is the command of that
/// answer for that descriptor.
proof fn lemma_answer_line_is_command(keyword: Seq<char>, at: int, fd: i32)
    requires
        0 <= at < FanResponse::spec_values().len(),
        PREFIX@ + keyword == FanResponse::spec_values()[at].name@,
        forall|i: int| 0 <= i < keyword.len() ==> !whitespace()(#[trigger] keyword[i]),
    ensures
        spec_command(spec_answer_line(keyword, fd)) == Some((FanResponse::spec_values()[at], fd)),
{
    let number = spec_ascii(spec_decimal_text(fd as int));
    lemma_decimal_text_is_one_word(fd as int);
    lemma_decimal_text_reads_back(fd);
    lemma_split_around_stop(keyword, ' ', number, whitespace());
    lemma_split_without_stop(keyword, whitespace());
    lemma_split_without_stop(number, whitespace());
    let fields = spec_split(spec_answer_line(keyword, fd), whitespace());
    assert(fields =~= seq![keyword, number]);
    FanResponse::lemma_names_distinct();
    lemma_parse_inverts_render(FanResponse::spec_values(), at);
}

/// An answer that names a descriptor as it was printed is written for that
/// descriptor, and the descriptor is closed once, after the answer.
pub proof fn lemma_answer_releases_descriptor(nread: usize, fd: i32, order: ByteOrder)
    requires
        nread > 0,
    ensures
        spec_handle_command(nread, spec_answer_line("ALLOW"@, fd), order) == Ok::<
            Seq<ActionView>,
            CommandError,
        >(seq![ActionView::Respond(spec_response(1, fd, order)), ActionView::Close(fd)]),
        spec_handle_command(nread, spec_answer_line("DENY"@, fd), order) == Ok::<
            Seq<ActionView>,
            CommandError,
        >(seq![ActionView::Respond(spec_response(2, fd, order)), ActionView::Close(fd)]),
{
    reveal_strlit("FAN_");
    reveal_strlit("ALLOW");
    reveal_strlit("DENY");
    reveal_strlit("FAN_ALLOW");
    reveal_strlit("FAN_DENY");
    assert(PREFIX@ + "ALLOW"@ =~= "FAN_ALLOW"@);
    assert(PREFIX@ + "DENY"@ =~= "FAN_DENY"@);
    lemma_answer_line_is_command("ALLOW"@, 0, fd);
    lemma_answer_line_is_command("DENY"@, 1, fd);
}

} // verus!
