//! The daemon's log line format.
//!
//! A message is written as `DATE TIME LEVEL [MODULE:LINE] MESSAGE`, with
//! the date and time in UTC as `%F %T` writes them and the level name padded
//! to five columns.

use vstd::prelude::*;
use crate::text::{decimal, pad_right, push_char, push_decimal, push_padded, digits_value, is_digit, lemma_decimal_denotes};

verus! {

/// Directory that holds the daemon's log file.
pub const LOG_DIR: &'static str = "logs";

/// The daemon's log file. The text of each message is appended to it as it
/// is: no line break is added between messages.
pub const LOG_FILE: &'static str = "./logs/logs.txt";

/// Earliest second that the log clock renders: -100000-01-01 00:00:00 UTC,
/// the first day of the `time` crate's dates.
pub const MIN_LOG_SECS: i64 = -3_217_862_419_200;

/// Latest second that the log clock renders: 100000-12-31 23:59:59 UTC, the
/// last second of the `time` crate's dates.
pub const MAX_LOG_SECS: i64 = 3_093_559_603_199;

/// How severe a log message is, from the most verbose to the most serious.
#[derive(Clone, Copy, PartialEq, Eq, Structural, Debug)]
pub enum LogLevel {
    Gossip,
    Trace,
    Debug,
    Info,
    Warn,
    Error,
}

/// The name under which a level is written.
pub open spec fn level_name(level: LogLevel) -> Seq<char> {
    match level {
        LogLevel::Gossip => seq!['G', 'O', 'S', 'S', 'I', 'P'],
        LogLevel::Trace => seq!['T', 'R', 'A', 'C', 'E'],
        LogLevel::Debug => seq!['D', 'E', 'B', 'U', 'G'],
        LogLevel::Info => seq!['I', 'N', 'F', 'O'],
        LogLevel::Warn => seq!['W', 'A', 'R', 'N'],
        LogLevel::Error => seq!['E', 'R', 'R', 'O', 'R'],
    }
}

impl LogLevel {
    /// The name under which this level is written.
    pub fn name(&self) -> (s: &'static str)
        ensures
            s@ == level_name(*self),
    {
        proof {
            reveal_strlit("GOSSIP");
            reveal_strlit("TRACE");
            reveal_strlit("DEBUG");
            reveal_strlit("INFO");
            reveal_strlit("WARN");
            reveal_strlit("ERROR");
        }
        match self {
            LogLevel::Gossip => "GOSSIP",
            LogLevel::Trace => "TRACE",
            LogLevel::Debug => "DEBUG",
            LogLevel::Info => "INFO",
            LogLevel::Warn => "WARN",
            LogLevel::Error => "ERROR",
        }
    }
}

/// One message to log.
pub struct LogRecord {
    pub level: LogLevel,
    /// The module that logged the message.
    pub module: String,
    /// The source line that logged the message.
    pub line: u32,
    /// The message itself.
    pub message: String,
}

/// The UTC date and time of a Unix timestamp, as `%F %T` renders it in the
/// `time` crate.
pub uninterp spec fn utc_date_time_text(unix_secs: int) -> Seq<char>;

/// `time::OffsetDateTime::from_unix_timestamp(unix_secs).format("%F %T")`:
/// the UTC date and time of the timestamp, such as `2023-11-14 22:13:20`
/// (the hour is not padded). Only the name `utc_date_time_text` is claimed
/// of the text, which depends on the timestamp alone; the range in
/// `requires` is the crate's range of dates, years -100000 to 100000,
/// outside which it panics.
#[verifier::external_body]
fn format_utc_date_time(unix_secs: i64) -> (text: String)
    requires
        MIN_LOG_SECS <= unix_secs <= MAX_LOG_SECS,
    ensures
        text@ == utc_date_time_text(unix_secs as int),
{
    time::OffsetDateTime::from_unix_timestamp(unix_secs).format("%F %T")
}

/// The text that the log gets for `record`, logged at `unix_secs`.
pub open spec fn log_line_text(unix_secs: int, record: LogRecord) -> Seq<char> {
    utc_date_time_text(unix_secs) + seq![' '] + pad_right(level_name(record.level), 5) + seq![' ', '[']
        + record.module@ + seq![':'] + decimal(record.line as nat) + seq![']', ' ']
        + record.message@
}

/// A logger that appends the text of each message to [`LOG_FILE`].
pub struct FilesystemLogger {}

impl FilesystemLogger {
    /// The text written for `record`, logged at the Unix time `unix_secs`.
    pub fn log_line(&self, unix_secs: i64, record: &LogRecord) -> (line: String)
        requires
            MIN_LOG_SECS <= unix_secs <= MAX_LOG_SECS,
        ensures
            line@ == log_line_text(unix_secs as int, *record),
    {
        let mut line = format_utc_date_time(unix_secs);
        push_char(&mut line, ' ');
        push_padded(&mut line, record.level.name(), 5);
        push_char(&mut line, ' ');
        push_char(&mut line, '[');
        line.append(record.module.as_str());
        push_char(&mut line, ':');
        push_decimal(&mut line, record.line as u64);
        push_char(&mut line, ']');
        push_char(&mut line, ' ');
        line.append(record.message.as_str());
        assert(line@ =~= log_line_text(unix_secs as int, *record));
        line
    }
}

/// The log text of a record, at any time, is: the UTC date-time text, a
/// space, the level's name followed by spaces up to five columns, ` [`, the
/// module, `:`, the decimal digits of the source line (denoting that line),
/// `] `, and then the whole message unchanged, whatever its length.
pub proof fn lemma_log_line_layout(unix_secs: int, record: LogRecord)
    ensures
        ({
            let line = log_line_text(unix_secs, record);
            let name = level_name(record.level);
            let width: int = if name.len() < 5 { 5 } else { name.len() as int };
            let digits = decimal(record.line as nat);
            let m = record.message@;
            &&& line == utc_date_time_text(unix_secs) + seq![' '] + name
                + Seq::new((width - name.len()) as nat, |i: int| ' ') + seq![' ', '['] + record.module@
                + seq![':'] + digits + seq![']', ' '] + m
            &&& digits.len() > 0
            &&& digits_value(digits) == record.line
            &&& forall|j: int| 0 <= j < digits.len() ==> is_digit(#[trigger] digits[j])
            &&& line.len() >= m.len()
            &&& line.subrange(line.len() - m.len(), line.len() as int) == m
            &&& line.subrange(0, utc_date_time_text(unix_secs).len() as int) == utc_date_time_text(unix_secs)
        }),
{
    let line = log_line_text(unix_secs, record);
    let name = level_name(record.level);
    let width: int = if name.len() < 5 { 5 } else { name.len() as int };
    lemma_decimal_denotes(record.line as nat);
    assert(pad_right(name, 5) =~= name + Seq::new((width - name.len()) as nat, |i: int| ' '));
    let m = record.message@;
    assert(line.subrange(line.len() - m.len(), line.len() as int) =~= m);
    assert(line.subrange(0, utc_date_time_text(unix_secs).len() as int) =~= utc_date_time_text(unix_secs));
}

} // verus!
