//! Progress events: transient payloads pushed to whoever listens.
//!
//! Delivery is the caller's business and is fire-and-forget; the
//! library only decides when an event is due and what it carries.

use vstd::prelude::*;
use vstd::string::StringExecFns;
use crate::strings::{spec_dec, u64_to_string};

verus! {

/// One progress event.  `percentage` is a whole percent, 0 to 100.
pub struct ModUpdateProgress {
    pub mod_name: String,
    pub step: String,
    pub current: u64,
    pub total: u64,
    pub percentage: u64,
    pub message: String,
}

/// Whole-percent progress: 0 while the total is unknown (zero), capped
/// at 100.
pub open spec fn spec_percent(current: int, total: int) -> int {
    if total <= 0 {
        0
    } else if current >= total {
        100
    } else {
        current * 100 / total
    }
}

pub fn percent(current: u64, total: u64) -> (r: u64)
    ensures
        r == spec_percent(current as int, total as int),
        r <= 100,
{
    if total == 0 {
        0
    } else if current >= total {
        100
    } else {
        let p = ((current as u128) * 100 / (total as u128)) as u64;
        proof {
            assert((current as int) * 100 / (total as int) < 100) by (nonlinear_arith)
                requires
                    0 < total as int,
                    (current as int) < (total as int),
            ;
            assert((current as int) * 100 / (total as int) >= 0) by (nonlinear_arith)
                requires
                    0 < total as int,
                    0 <= current as int,
            ;
        }
        p
    }
}

pub open spec fn spec_starting_message(name: Seq<char>) -> Seq<char> {
    "Starting download of "@ + name + "..."@
}

pub open spec fn spec_download_message(downloaded: int, total: int) -> Seq<char> {
    "Downloaded "@ + spec_dec(downloaded / 0x100000) + " / "@ + spec_dec(total / 0x100000)
        + " MB"@
}

pub open spec fn spec_extracting_message(name: Seq<char>) -> Seq<char> {
    "Extracting "@ + name + "..."@
}

pub open spec fn spec_extract_step_message(index: int, total: int) -> Seq<char> {
    "Extracting file "@ + spec_dec(index + 1) + " of "@ + spec_dec(total) + "..."@
}

pub open spec fn spec_finalizing_message(name: Seq<char>) -> Seq<char> {
    "Finalizing installation of "@ + name + "..."@
}

pub open spec fn spec_completed_message(
    is_new: bool,
    name: Seq<char>,
    version: Seq<char>,
) -> Seq<char> {
    "Successfully "@ + (if is_new {
        "installed"@
    } else {
        "updated"@
    }) + " "@ + name + " to version "@ + version
}

impl ModUpdateProgress {
    /// The event announcing that a download starts.
    pub fn downloading_started(mod_name: &String) -> (r: Self)
        ensures
            r.mod_name@ == mod_name@,
            r.step@ == "downloading"@,
            r.current == 0,
            r.total == 0,
            r.percentage == 0,
            r.message@ == spec_starting_message(mod_name@),
    {
        let mut message = String::from_str("Starting download of ");
        message.append(mod_name.as_str());
        message.append("...");
        ModUpdateProgress {
            mod_name: mod_name.clone(),
            step: String::from_str("downloading"),
            current: 0,
            total: 0,
            percentage: 0,
            message,
        }
    }

    /// The event for bytes received so far.
    pub fn downloading(mod_name: &String, downloaded: u64, total: u64) -> (r: Self)
        ensures
            r.mod_name@ == mod_name@,
            r.step@ == "downloading"@,
            r.current == downloaded,
            r.total == total,
            r.percentage == spec_percent(downloaded as int, total as int),
            r.message@ == spec_download_message(downloaded as int, total as int),
    {
        let mut message = String::from_str("Downloaded ");
        message.append(u64_to_string(downloaded / 0x100000).as_str());
        message.append(" / ");
        message.append(u64_to_string(total / 0x100000).as_str());
        message.append(" MB");
        ModUpdateProgress {
            mod_name: mod_name.clone(),
            step: String::from_str("downloading"),
            current: downloaded,
            total,
            percentage: percent(downloaded, total),
            message,
        }
    }

    /// The event announcing that extraction starts.
    pub fn extracting_started(mod_name: &String) -> (r: Self)
        ensures
            r.mod_name@ == mod_name@,
            r.step@ == "extracting"@,
            r.current == 0,
            r.total == 100,
            r.percentage == 0,
            r.message@ == spec_extracting_message(mod_name@),
    {
        let mut message = String::from_str("Extracting ");
        message.append(mod_name.as_str());
        message.append("...");
        ModUpdateProgress {
            mod_name: mod_name.clone(),
            step: String::from_str("extracting"),
            current: 0,
            total: 100,
            percentage: 0,
            message,
        }
    }

    /// The event for one archive entry being extracted.
    pub fn extracting_entry(mod_name: &String, index: u64, total: u64) -> (r: Self)
        requires
            index < u64::MAX,
        ensures
            r.mod_name@ == mod_name@,
            r.step@ == "extracting"@,
            r.current == index,
            r.total == total,
            r.percentage == spec_percent(index as int, total as int),
            r.message@ == spec_extract_step_message(index as int, total as int),
    {
        let mut message = String::from_str("Extracting file ");
        message.append(u64_to_string(index + 1).as_str());
        message.append(" of ");
        message.append(u64_to_string(total).as_str());
        message.append("...");
        ModUpdateProgress {
            mod_name: mod_name.clone(),
            step: String::from_str("extracting"),
            current: index,
            total,
            percentage: percent(index, total),
            message,
        }
    }

    /// The event announcing registry bookkeeping after extraction.
    pub fn finalizing(mod_name: &String) -> (r: Self)
        ensures
            r.mod_name@ == mod_name@,
            r.step@ == "installing"@,
            r.current == 90,
            r.total == 100,
            r.percentage == 90,
            r.message@ == spec_finalizing_message(mod_name@),
    {
        let mut message = String::from_str("Finalizing installation of ");
        message.append(mod_name.as_str());
        message.append("...");
        ModUpdateProgress {
            mod_name: mod_name.clone(),
            step: String::from_str("installing"),
            current: 90,
            total: 100,
            percentage: 90,
            message,
        }
    }

    /// The event announcing a finished install or update.
    pub fn completed(mod_name: &String, remote_version: &String, is_new: bool) -> (r: Self)
        ensures
            r.mod_name@ == mod_name@,
            r.step@ == "complete"@,
            r.current == 100,
            r.total == 100,
            r.percentage == 100,
            r.message@ == spec_completed_message(is_new, mod_name@, remote_version@),
    {
        let mut message = String::from_str("Successfully ");
        if is_new {
            message.append("installed");
        } else {
            message.append("updated");
        }
        message.append(" ");
        message.append(mod_name.as_str());
        message.append(" to version ");
        message.append(remote_version.as_str());
        ModUpdateProgress {
            mod_name: mod_name.clone(),
            step: String::from_str("complete"),
            current: 100,
            total: 100,
            percentage: 100,
            message,
        }
    }
}

} // verus!
