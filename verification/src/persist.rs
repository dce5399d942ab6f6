//! Writing the registry to disk: which step follows which.

use crate::text::{decimal, decimal_text, joined};
use vstd::prelude::*;
use vstd::string::*;

verus! {

/// A step of writing the whitelist file and the state file.
#[derive(Debug, Clone, Copy, PartialEq, Eq, Structural)]
pub enum SaveStep {
    /// Create the directory of the whitelist file.
    MakeJsonDir,
    /// Create the directory of the state file.
    MakeDbDir,
    /// Write the whitelist to a temporary file.
    WriteJson,
    /// Put the temporary file in the place of the whitelist file.
    RenameJson,
    /// Write the state to a temporary file.
    WriteDb,
    /// Put the temporary file in the place of the state file.
    RenameDb,
    /// Everything is on disk.
    Saved,
    /// A step failed; what follows it was not done.
    Failed,
}

/// The step that comes first.
pub open spec fn first_step(json_has_dir: bool, db_has_dir: bool) -> SaveStep {
    if json_has_dir {
        SaveStep::MakeJsonDir
    } else if db_has_dir {
        SaveStep::MakeDbDir
    } else {
        SaveStep::WriteJson
    }
}

/// The step that follows a step which succeeded or failed.
pub open spec fn next_step(step: SaveStep, db_has_dir: bool, ok: bool) -> SaveStep {
    match step {
        SaveStep::Saved => SaveStep::Saved,
        SaveStep::Failed => SaveStep::Failed,
        _ => if !ok {
            SaveStep::Failed
        } else {
            match step {
                SaveStep::MakeJsonDir => if db_has_dir {
                    SaveStep::MakeDbDir
                } else {
                    SaveStep::WriteJson
                },
                SaveStep::MakeDbDir => SaveStep::WriteJson,
                SaveStep::WriteJson => SaveStep::RenameJson,
                SaveStep::RenameJson => SaveStep::WriteDb,
                SaveStep::WriteDb => SaveStep::RenameDb,
                _ => SaveStep::Saved,
            }
        },
    }
}

/// The step that comes first. A directory is created only where the path of the file names one.
pub fn first_save_step(json_has_dir: bool, db_has_dir: bool) -> (step: SaveStep)
    ensures
        step == first_step(json_has_dir, db_has_dir),
{
    if json_has_dir {
        SaveStep::MakeJsonDir
    } else if db_has_dir {
        SaveStep::MakeDbDir
    } else {
        SaveStep::WriteJson
    }
}

/// The step that follows a step which succeeded or failed.
pub fn next_save_step(step: SaveStep, db_has_dir: bool, ok: bool) -> (next: SaveStep)
    ensures
        next == next_step(step, db_has_dir, ok),
{
    match step {
        SaveStep::Saved => SaveStep::Saved,
        SaveStep::Failed => SaveStep::Failed,
        _ if !ok => SaveStep::Failed,
        SaveStep::MakeJsonDir => {
            if db_has_dir {
                SaveStep::MakeDbDir
            } else {
                SaveStep::WriteJson
            }
        },
        SaveStep::MakeDbDir => SaveStep::WriteJson,
        SaveStep::WriteJson => SaveStep::RenameJson,
        SaveStep::RenameJson => SaveStep::WriteDb,
        SaveStep::WriteDb => SaveStep::RenameDb,
        SaveStep::RenameDb => SaveStep::Saved,
    }
}

/// The step that is reached after some steps, given how each of them went.
pub open spec fn step_after(json_has_dir: bool, db_has_dir: bool, went: Seq<bool>) -> SaveStep
    decreases went.len(),
{
    if went.len() == 0 {
        first_step(json_has_dir, db_has_dir)
    } else {
        next_step(
            step_after(json_has_dir, db_has_dir, went.drop_last()),
            db_has_dir,
            went.last(),
        )
    }
}

/// The name of the temporary file that stands in for a file.
pub open spec fn temp_name(file_name: Option<Seq<char>>, pid: u32) -> Seq<char> {
    (match file_name {
        Some(name) => name + ".tmp."@,
        None => "ip_whitelist.tmp."@,
    }) + decimal(pid as nat)
}

/// The name of the temporary file that stands in for a file.
pub fn temp_file_name(file_name: Option<&str>, pid: u32) -> (temp: String)
    ensures
        temp@ == temp_name(
            match file_name {
                Some(name) => Some(name@),
                None => None,
            },
            pid,
        ),
{
    let number = decimal_text(pid);
    match file_name {
        Some(name) => joined(joined(name, ".tmp.").as_str(), number.as_str()),
        None => joined("ip_whitelist.tmp.", number.as_str()),
    }
}

} // verus!
