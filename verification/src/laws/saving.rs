//! What is written where and in which order, and what the arguments and the clock say.

use crate::clock::whole_seconds;
use crate::config::{config_path, names_config, state_file_place};
use crate::laws::text::{is_decimal_of, law_decimal_reads_as_the_number};
use crate::persist::{first_save_step, next_save_step, step_after, temp_file_name, SaveStep};
use crate::text::decimal;
use vstd::prelude::*;
use vstd::string::*;

verus! {

/// The steps of a write in which nothing fails: the directories that there are to make, then the
/// whitelist file and after it the state file, each written aside and then put in its place.
pub open spec fn all_steps(json_has_dir: bool, db_has_dir: bool) -> Seq<SaveStep> {
    let files = seq![
        SaveStep::WriteJson,
        SaveStep::RenameJson,
        SaveStep::WriteDb,
        SaveStep::RenameDb,
        SaveStep::Saved,
    ];
    let for_db = if db_has_dir {
        seq![SaveStep::MakeDbDir] + files
    } else {
        files
    };
    if json_has_dir {
        seq![SaveStep::MakeJsonDir] + for_db
    } else {
        for_db
    }
}

/// A write begins with the first of its steps.
pub proof fn law_write_begins_with_its_first_step(
    json_has_dir: bool,
    db_has_dir: bool,
    step: SaveStep,
)
    requires
        call_ensures(first_save_step, (json_has_dir, db_has_dir), step),
    ensures
        step == all_steps(json_has_dir, db_has_dir)[0],
{
}

/// A step that succeeds is followed by the next one; a step that fails ends the write, unless
/// everything is on disk already.
pub proof fn law_steps_follow_each_other(
    json_has_dir: bool,
    db_has_dir: bool,
    i: int,
    ok: bool,
    next: SaveStep,
)
    requires
        0 <= i < all_steps(json_has_dir, db_has_dir).len() - 1,
        call_ensures(
            next_save_step,
            (all_steps(json_has_dir, db_has_dir)[i], db_has_dir, ok),
            next,
        ),
    ensures
        next == if ok {
            all_steps(json_has_dir, db_has_dir)[i + 1]
        } else {
            SaveStep::Failed
        },
{
}

/// A write that is over stays so.
pub proof fn law_finished_write_stays(step: SaveStep, db_has_dir: bool, ok: bool, next: SaveStep)
    requires
        step == SaveStep::Saved || step == SaveStep::Failed,
        call_ensures(next_save_step, (step, db_has_dir, ok), next),
    ensures
        next == step,
{
}

/// While nothing fails, the steps of a write come in their order.
pub proof fn law_steps_come_in_order(json_has_dir: bool, db_has_dir: bool, went: Seq<bool>)
    requires
        forall|i: int| 0 <= i < went.len() ==> went[i],
        went.len() < all_steps(json_has_dir, db_has_dir).len(),
    ensures
        step_after(json_has_dir, db_has_dir, went) == all_steps(
            json_has_dir,
            db_has_dir,
        )[went.len() as int],
    decreases went.len(),
{
    if went.len() > 0 {
        law_steps_come_in_order(json_has_dir, db_has_dir, went.drop_last());
        assert(went.last());
    }
}

/// The temporary file is named after the file, or after the whitelist where the file has no name,
/// and after the process.
pub proof fn law_temporary_name(file_name: Option<&str>, pid: u32, temp: String)
    requires
        call_ensures(temp_file_name, (file_name, pid), temp),
    ensures
        exists|digits: Seq<char>| #[trigger]
            is_decimal_of(digits, pid as int) && temp@ == (match file_name {
                Some(name) => name@,
                None => "ip_whitelist"@,
            }) + seq!['.', 't', 'm', 'p', '.'] + digits,
{
    reveal_strlit(".tmp.");
    reveal_strlit("ip_whitelist");
    reveal_strlit("ip_whitelist.tmp.");
    law_decimal_reads_as_the_number(pid as nat);
    assert(".tmp."@ =~= seq!['.', 't', 'm', 'p', '.']);
    assert("ip_whitelist.tmp."@ =~= "ip_whitelist"@ + seq!['.', 't', 'm', 'p', '.']);
}

/// An argument is one of the flags that name the configuration file.
pub open spec fn is_config_flag(arg: Seq<char>) -> bool {
    arg == seq!['-', 'c'] || arg == "--config"@
}

/// The configuration file is named by the argument after the first flag behind the program's name
/// that has one.
pub proof fn law_first_flag_names_the_configuration(args: Vec<String>, path: String, i: int)
    requires
        call_ensures(config_path, (&args,), path),
        1 <= i < args@.len() - 1,
        is_config_flag(args@[i]@),
        forall|k: int| 1 <= k < i ==> !is_config_flag((#[trigger] args@[k])@),
    ensures
        path@ == args@[i + 1]@,
{
    reveal_strlit("-c");
    assert("-c"@ =~= seq!['-', 'c']);
    let views = args.deep_view();
    assert(views[i] == args@[i]@);
    assert(names_config(views, i));
    let j = choose|j: int| #[trigger]
        names_config(views, j) && path@ == views[j + 1] && forall|k: int|
            k < j ==> !names_config(views, k);
    assert(is_config_flag(args@[j]@));
    assert(j == i);
}

/// Without such a flag the configuration file is `config.toml`.
pub proof fn law_usual_configuration(args: Vec<String>, path: String)
    requires
        call_ensures(config_path, (&args,), path),
        forall|k: int| 1 <= k < args@.len() - 1 ==> !is_config_flag((#[trigger] args@[k])@),
    ensures
        path@ == "config.toml"@,
{
    reveal_strlit("-c");
    assert("-c"@ =~= seq!['-', 'c']);
    assert forall|k: int| !names_config(args.deep_view(), k) by {
        if 1 <= k < args@.len() - 1 {
            assert(!is_config_flag(args@[k]@));
        }
    }
}

/// The state file stands beside the configuration file under a name of its own.
pub proof fn law_state_file_place(config_dir: Option<&str>, place: (String, String))
    requires
        call_ensures(state_file_place, (config_dir,), place),
    ensures
        config_dir matches Some(dir) ==> place.0@ == dir@,
        config_dir is None ==> place.0@ == seq!['.'],
        place.1@ == "ip_whitelist.json.db"@,
{
    reveal_strlit(".");
    assert("."@ =~= seq!['.']);
}

/// Of a time since the epoch the whole seconds count.
pub proof fn law_whole_seconds(elapsed: Option<(u64, u32)>, timestamp: Option<u64>)
    requires
        call_ensures(whole_seconds, (elapsed,), timestamp),
    ensures
        elapsed is None <==> timestamp is None,
        elapsed matches Some((secs, _)) ==> timestamp == Some(secs),
{
}

} // verus!
