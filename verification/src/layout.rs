//! Where the files of a task live.
//!
//! A writer builds `<folder>/<task>.cache` and publishes it by renaming it to
//! `<folder>/<task>.<timestamp>.cache`; `<folder>/<task>.cache.timestamp.latest`
//! holds the timestamp of the latest generation, and
//! `<folder>/<task>.properties` the settings of the task.

use vstd::prelude::*;
use crate::text::{push_signed_decimal, signed_decimal};

verus! {

/// `<folder>/<task>`.
pub open spec fn task_stem(folder: Seq<char>, task: Seq<char>) -> Seq<char> {
    folder + "/"@ + task
}

/// The name of the file that a writer builds.
pub open spec fn working_file(folder: Seq<char>, task: Seq<char>) -> Seq<char> {
    task_stem(folder, task) + ".cache"@
}

/// The name of the file of a published generation.
pub open spec fn generation_file(folder: Seq<char>, task: Seq<char>, timestamp: Seq<char>) -> Seq<
    char,
> {
    task_stem(folder, task) + "."@ + timestamp + ".cache"@
}

/// The name of the file that holds the latest timestamp.
pub open spec fn latest_marker_file(folder: Seq<char>, task: Seq<char>) -> Seq<char> {
    task_stem(folder, task) + ".cache.timestamp.latest"@
}

/// The default name of the settings file.
pub open spec fn settings_file(folder: Seq<char>, task: Seq<char>) -> Seq<char> {
    task_stem(folder, task) + ".properties"@
}

/// The lines of a settings file.
pub open spec fn settings_text(folder: Seq<char>, cache_type: int, offset_bits: int) -> Seq<char> {
    "ccache.destination_folder="@ + folder + "\n"@ + "ccache.type="@ + signed_decimal(cache_type)
        + "\n"@ + "ccache.offset.bits="@ + signed_decimal(offset_bits) + "\n"@
}

fn stem(folder: &str, task: &str) -> (name: String)
    ensures
        name@ == task_stem(folder@, task@),
{
    let mut name = String::new();
    name.append(folder);
    name.append("/");
    name.append(task);
    proof {
        assert(name@ =~= task_stem(folder@, task@));
    }
    name
}

/// The name of the file that a writer builds.
pub fn working_file_name(folder: &str, task: &str) -> (name: String)
    ensures
        name@ == working_file(folder@, task@),
{
    let mut name = stem(folder, task);
    name.append(".cache");
    name
}

/// The name of the file of the generation `timestamp`.
pub fn generation_file_name(folder: &str, task: &str, timestamp: &str) -> (name: String)
    ensures
        name@ == generation_file(folder@, task@, timestamp@),
{
    let mut name = stem(folder, task);
    name.append(".");
    name.append(timestamp);
    name.append(".cache");
    name
}

/// The name of the file that holds the latest timestamp.
pub fn latest_marker_name(folder: &str, task: &str) -> (name: String)
    ensures
        name@ == latest_marker_file(folder@, task@),
{
    let mut name = stem(folder, task);
    name.append(".cache.timestamp.latest");
    name
}

/// The default name of the settings file.
pub fn settings_file_name(folder: &str, task: &str) -> (name: String)
    ensures
        name@ == settings_file(folder@, task@),
{
    let mut name = stem(folder, task);
    name.append(".properties");
    name
}

/// The lines of the settings file of a task: the destination folder, the
/// cache type and the number of offset bits, one `key=value` line each.
pub fn settings_lines(folder: &str, cache_type: i32, offset_bits: i32) -> (text: String)
    ensures
        text@ == settings_text(folder@, cache_type as int, offset_bits as int),
{
    let mut text = String::new();
    text.append("ccache.destination_folder=");
    text.append(folder);
    text.append("\n");
    text.append("ccache.type=");
    push_signed_decimal(&mut text, cache_type as i64);
    text.append("\n");
    text.append("ccache.offset.bits=");
    push_signed_decimal(&mut text, offset_bits as i64);
    text.append("\n");
    proof {
        assert(text@ =~= settings_text(folder@, cache_type as int, offset_bits as int));
    }
    text
}

} // verus!
