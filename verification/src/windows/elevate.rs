//! Running a step with administrator rights: what the helper reports, and what its
//! outcome means.

use vstd::prelude::*;
use vstd::string::*;

use crate::decimal::{numeral, write_number};
use crate::text::{chars_of, trim, trimmed};

verus! {

/// How a run of the helper ended.
pub enum HelperRun {
    /// It was not allowed to start.
    Refused,
    /// It was started, but there is no process.
    NoProcess,
    /// It did not end in time.
    TimedOut,
    /// It ended with this exit code, where that could be read.
    Ended(Option<u32>),
}

/// The longest that the helper is waited for, in milliseconds.
pub const ELEVATED_TIMEOUT_MS: u32 = 120_000;

/// What the helper writes down: nothing where it succeeded, otherwise the reason.
pub fn record_op_result(result: &Result<(), String>) -> (r: String)
    ensures
        r@ == match result {
            Ok(_) => seq![],
            Err(e) => e@,
        },
{
    match result {
        Ok(_) => {
            let none: String = String::new();
            assert(none@ =~= seq![]);
            none
        },
        Err(e) => e.clone(),
    }
}

/// The reason that the helper wrote down, if it did: a blank report gives none.
pub open spec fn reported(report: Option<Seq<char>>) -> Option<Seq<char>> {
    match report {
        Some(s) => if trim(s).len() == 0 {
            None
        } else {
            Some(s)
        },
        None => None,
    }
}

/// What the user is told where the helper did not succeed.
pub open spec fn failure(run: HelperRun, report: Option<Seq<char>>) -> Option<Seq<char>> {
    match run {
        HelperRun::Refused => Some(
            "Setup was cancelled (administrator permission was not granted)."@,
        ),
        HelperRun::NoProcess => Some("Could not start the elevated ADtune helper."@),
        HelperRun::TimedOut => Some(
            "The elevated ADtune helper did not finish in time (the audio service may be busy). Try again."@,
        ),
        HelperRun::Ended(code) => if code == Some(0u32) {
            None
        } else {
            match reported(report) {
                Some(s) => Some(s),
                None => Some(
                    "The elevated ADtune helper failed (exit code "@ + numeral(
                        match code {
                            Some(c) => c as nat,
                            None => 1,
                        },
                    ) + ")."@,
                ),
            }
        },
    }
}

/// The outcome of a run: success where the helper ended with code 0, otherwise the
/// reason that it wrote down, or what became of it. The report is looked at only
/// where the helper ended.
pub fn run_elevated(run: &HelperRun, report: Option<String>) -> (r: Result<(), String>)
    ensures
        r is Ok <==> failure(
            *run,
            match report {
                Some(s) => Some(s@),
                None => None,
            },
        ) is None,
        r matches Err(e) ==> failure(
            *run,
            match report {
                Some(s) => Some(s@),
                None => None,
            },
        ) == Some(e@),
{
    match run {
        HelperRun::Refused => Err(
            "Setup was cancelled (administrator permission was not granted).".to_owned(),
        ),
        HelperRun::NoProcess => Err("Could not start the elevated ADtune helper.".to_owned()),
        HelperRun::TimedOut => Err(
            "The elevated ADtune helper did not finish in time (the audio service may be busy). Try again.".to_owned(),
        ),
        HelperRun::Ended(code) => {
            if let Some(0) = code {
                return Ok(());
            }
            if let Some(s) = report {
                if trimmed(&chars_of(&s)).len() > 0 {
                    return Err(s);
                }
            }
            let shown: u32 = match code {
                Some(c) => *c,
                None => 1,
            };
            Err(
                "The elevated ADtune helper failed (exit code ".to_owned().concat(
                    &write_number(shown as u64),
                ).concat(")."),
            )
        },
    }
}

/// A reason that the helper writes down reaches the user, unless it is blank.
pub proof fn law_reason_is_passed_on(reason: Seq<char>, code: Option<u32>)
    requires
        trim(reason).len() > 0,
        code != Some(0u32),
    ensures
        failure(HelperRun::Ended(code), Some(reason)) == Some(reason),
{
}

} // verus!
