//! The question before a fresh cache is scanned again: answered by a key, by a
//! line, or by five seconds of silence.
use crate::error::CliError;
use crate::text::{lower, lower_char, same_text, to_lower, to_lower_char, trim, trim_text};
use vstd::prelude::*;

verus! {

/// Seconds until silence counts as a no.
pub const TIMEOUT_SECONDS: u64 = 5;

/// Nanoseconds in a second.
pub const SECOND: u128 = 1_000_000_000;

/// How far the question has come.
#[derive(Debug, Clone, Copy, PartialEq, Eq, Structural)]
pub struct RescanPrompt {
    /// Pulses printed so far, one for each second.
    pub printed: u64,
    /// Whether a wrong key has been answered already.
    pub invalid_key: bool,
}

/// What happened at the console.
#[derive(Debug, Clone, Copy, PartialEq, Eq)]
pub enum PromptInput {
    /// The time since the question was asked.
    Clock { elapsed_nanos: u128 },
    /// Nothing was typed while waiting.
    Silence,
    /// A key was pressed; `None` where it has no character.
    Key(Option<char>),
    /// Something else than a pressed key was reported.
    OtherInput,
    /// The console could not be waited for.
    WaitFailed,
}

/// What to do next.
#[derive(Debug, Clone, Copy, PartialEq, Eq)]
pub enum PromptStep {
    /// Print `pulses` pulses and look at the clock no later than after
    /// `millis` milliseconds.
    Wait { pulses: u64, millis: u32 },
    /// Print `pulses` pulses and stop: nobody answered.
    AutoSkip { pulses: u64 },
    /// Say once which keys count.
    WrongKey,
    /// Look at the clock.
    LookAtClock,
    /// Ask for a line instead.
    AskLine,
    /// Answered.
    Answered(bool),
}

/// The pulse character with the given number.
pub open spec fn pulse(n: int) -> char {
    if n % 5 == 4 {
        '>'
    } else {
        '-'
    }
}

/// The pulse character with the given number.
pub fn pulse_char(n: u64) -> (r: char)
    ensures
        r == pulse(n as int),
{
    if n % 5 == 4 {
        '>'
    } else {
        '-'
    }
}

/// Control characters.
pub open spec fn is_control(c: char) -> bool {
    (c as u32) <= 0x1f || 0x7f <= (c as u32) <= 0x9f
}

/// Whole seconds of `elapsed`, at most the timeout.
pub open spec fn seconds_shown(elapsed: int) -> int {
    if elapsed / (SECOND as int) < TIMEOUT_SECONDS {
        elapsed / (SECOND as int)
    } else {
        TIMEOUT_SECONDS as int
    }
}

/// Pulses that are due: those of the whole seconds not yet printed.
pub open spec fn pulses_due(printed: int, elapsed: int) -> int {
    if seconds_shown(elapsed) > printed {
        seconds_shown(elapsed) - printed
    } else {
        0
    }
}

/// Milliseconds until the next pulse or the timeout, at least one.
pub open spec fn wait_millis(printed: int, elapsed: int) -> int {
    let next = if printed + 1 < TIMEOUT_SECONDS {
        (printed + 1) * SECOND
    } else {
        TIMEOUT_SECONDS * SECOND
    };
    let left = if next > elapsed {
        next - elapsed
    } else {
        0
    };
    if left / 1_000_000 < 1 {
        1
    } else {
        left / 1_000_000
    }
}

/// The question after `input`: what is printed counts, and so does the first
/// wrong key.
pub open spec fn prompt_after(prompt: RescanPrompt, input: PromptInput) -> RescanPrompt {
    match input {
        PromptInput::Clock { elapsed_nanos } => RescanPrompt {
            printed: if elapsed_nanos >= TIMEOUT_SECONDS * SECOND {
                TIMEOUT_SECONDS
            } else {
                (prompt.printed + pulses_due(
                    prompt.printed as int,
                    elapsed_nanos as int,
                )) as u64
            },
            ..prompt
        },
        PromptInput::Key(Some(c)) => RescanPrompt {
            invalid_key: prompt.invalid_key || !(lower_char(c) == 'y' || lower_char(c) == 'n'
                || is_control(c)),
            ..prompt
        },
        _ => prompt,
    }
}

/// The answer to `input`.
pub open spec fn prompt_step(prompt: RescanPrompt, input: PromptInput) -> PromptStep {
    match input {
        PromptInput::Clock { elapsed_nanos } => {
            let elapsed = elapsed_nanos as int;
            if elapsed >= TIMEOUT_SECONDS * SECOND {
                PromptStep::AutoSkip { pulses: (TIMEOUT_SECONDS - prompt.printed) as u64 }
            } else {
                let due = pulses_due(prompt.printed as int, elapsed);
                PromptStep::Wait {
                    pulses: due as u64,
                    millis: wait_millis(prompt.printed + due, elapsed) as u32,
                }
            }
        },
        PromptInput::Silence => PromptStep::LookAtClock,
        PromptInput::OtherInput => PromptStep::LookAtClock,
        PromptInput::WaitFailed => PromptStep::AskLine,
        PromptInput::Key(key) => match key {
            Some(c) => if lower_char(c) == 'y' {
                PromptStep::Answered(true)
            } else if lower_char(c) == 'n' || c == '\u{1b}' {
                PromptStep::Answered(false)
            } else if !is_control(c) && !prompt.invalid_key {
                PromptStep::WrongKey
            } else {
                PromptStep::LookAtClock
            },
            None => PromptStep::LookAtClock,
        },
    }
}

/// Begins the question: by key where there is a console to read keys from,
/// else by line.
pub fn confirm_rescan(has_console: bool) -> (r: (RescanPrompt, PromptStep))
    ensures
        r.0 == (RescanPrompt { printed: 0, invalid_key: false }),
        r.1 == if has_console {
            PromptStep::LookAtClock
        } else {
            PromptStep::AskLine
        },
{
    let prompt = RescanPrompt { printed: 0, invalid_key: false };
    if has_console {
        (prompt, PromptStep::LookAtClock)
    } else {
        (prompt, PromptStep::AskLine)
    }
}

/// Takes what happened at the console and says what to do next.
pub fn confirm_rescan_keypress(prompt: &mut RescanPrompt, input: PromptInput) -> (r: PromptStep)
    requires
        old(prompt).printed <= TIMEOUT_SECONDS,
    ensures
        r == prompt_step(*old(prompt), input),
        *final(prompt) == prompt_after(*old(prompt), input),
        final(prompt).printed <= TIMEOUT_SECONDS,
{
    match input {
        PromptInput::Clock { elapsed_nanos } => {
            if elapsed_nanos >= (TIMEOUT_SECONDS as u128) * SECOND {
                let pulses: u64 = TIMEOUT_SECONDS - prompt.printed;
                prompt.printed = TIMEOUT_SECONDS;
                return PromptStep::AutoSkip { pulses };
            }
            let seconds: u64 = (elapsed_nanos / SECOND) as u64;
            let pulses: u64 = if seconds > prompt.printed {
                seconds - prompt.printed
            } else {
                0
            };
            prompt.printed = prompt.printed + pulses;
            let next: u128 = if prompt.printed + 1 < TIMEOUT_SECONDS {
                ((prompt.printed + 1) as u128) * SECOND
            } else {
                (TIMEOUT_SECONDS as u128) * SECOND
            };
            let left: u128 = if next > elapsed_nanos {
                next - elapsed_nanos
            } else {
                0
            };
            let millis: u32 = (left / 1_000_000) as u32;
            PromptStep::Wait {
                pulses,
                millis: if millis < 1 {
                    1
                } else {
                    millis
                },
            }
        },
        PromptInput::Silence => PromptStep::LookAtClock,
        PromptInput::OtherInput => PromptStep::LookAtClock,
        PromptInput::WaitFailed => PromptStep::AskLine,
        PromptInput::Key(None) => PromptStep::LookAtClock,
        PromptInput::Key(Some(c)) => {
            let low = to_lower_char(c);
            let code: u32 = c as u32;
            if low == 'y' {
                PromptStep::Answered(true)
            } else if low == 'n' || c == '\u{1b}' {
                PromptStep::Answered(false)
            } else if code <= 0x1f || (0x7f <= code && code <= 0x9f) {
                PromptStep::LookAtClock
            } else if !prompt.invalid_key {
                prompt.invalid_key = true;
                PromptStep::WrongKey
            } else {
                PromptStep::LookAtClock
            }
        },
    }
}

/// What came of asking for a line.
#[derive(Debug)]
pub enum LineReply {
    Line(String),
    Failed(String),
    TimedOut,
    Gone,
}

/// The answer that a line gives: yes for `y` and `yes`, no for everything
/// else and for silence.
pub fn confirm_rescan_line(reply: LineReply) -> (r: Result<bool, CliError>)
    ensures
        match reply {
            LineReply::Line(line) => r == Ok::<bool, CliError>(
                lower(trim(line@)) == "y"@ || lower(trim(line@)) == "yes"@,
            ),
            LineReply::Failed(cause) => r matches Err(e) && e.shown()
                == "failed to read rescan confirmation"@ + ": "@ + cause@ && e is Io,
            _ => r == Ok::<bool, CliError>(false),
        },
{
    match reply {
        LineReply::Line(line) => {
            let answer = to_lower(trim_text(line.as_str()).as_str());
            Ok(same_text(answer.as_str(), "y") || same_text(answer.as_str(), "yes"))
        },
        LineReply::Failed(cause) => Err(
            CliError::Io {
                context: "failed to read rescan confirmation".to_owned(),
                source: cause,
            },
        ),
        LineReply::TimedOut => Ok(false),
        LineReply::Gone => Ok(false),
    }
}

/// Silence is a no: whatever has been printed, once the timeout has passed the
/// question ends without an answer, and before that it goes on.
pub proof fn law_silence_ends_the_question(prompt: RescanPrompt, elapsed: u128)
    requires
        prompt.printed <= TIMEOUT_SECONDS,
    ensures
        prompt_step(prompt, PromptInput::Clock { elapsed_nanos: elapsed }) is AutoSkip
            <==> elapsed >= TIMEOUT_SECONDS * SECOND,
{
}

/// Each pulse is printed once: what is printed at any look at the clock plus
/// what was printed before is what counts as printed after.
pub proof fn law_pulses_add_up(prompt: RescanPrompt, elapsed: u128)
    requires
        prompt.printed <= TIMEOUT_SECONDS,
    ensures
        match prompt_step(prompt, PromptInput::Clock { elapsed_nanos: elapsed }) {
            PromptStep::Wait { pulses, millis } => prompt_after(
                prompt,
                PromptInput::Clock { elapsed_nanos: elapsed },
            ).printed == prompt.printed + pulses && 1 <= millis <= 5000,
            PromptStep::AutoSkip { pulses } => prompt.printed + pulses == TIMEOUT_SECONDS,
            _ => false,
        },
{
}

} // verus!
