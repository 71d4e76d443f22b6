//! Small decisions of the commands, taken on what the runtime prints, and the
//! argument lists of the runtime queries.
use vstd::prelude::*;
use crate::text::{
    contains_seq, contains_text, decimal, decimal_string, eq_ignore_case, eq_ignore_case_exec,
    trim, trimmed, views,
};

verus! {

/// The line of a pull's progress that says that a newer image was fetched.
pub open spec fn newer_image_marker() -> Seq<char> {
    "Status: Downloaded newer image"@
}

/// The line of the deployer's log that says that an update check found nothing new.
pub open spec fn up_to_date_marker() -> Seq<char> {
    "Already up to date"@
}

/// Whether a line of a pull's progress reports that a newer image was fetched.
pub fn pull_reports_update(line: &str) -> (r: bool)
    ensures
        r == contains_seq(line@, newer_image_marker()),
{
    contains_text(line, "Status: Downloaded newer image")
}

/// Whether some line of a pull's progress reports that a newer image was fetched.
pub fn any_reports_update(lines: &Vec<String>) -> (r: bool)
    ensures
        r == exists|i: int| 0 <= i < lines@.len() && contains_seq(#[trigger] lines@[i]@, newer_image_marker()),
{
    let mut i: usize = 0;
    while i < lines.len()
        invariant
            i <= lines@.len(),
            forall|m: int| 0 <= m < i ==> !contains_seq(#[trigger] lines@[m]@, newer_image_marker()),
        decreases lines@.len() - i,
    {
        if pull_reports_update(lines[i].as_str()) {
            return true;
        }
        i = i + 1;
    }
    false
}

/// How many of the pulls fetched a newer image.
pub open spec fn updated_count(pulls: Seq<bool>) -> nat
    decreases pulls.len(),
{
    if pulls.len() == 0 {
        0
    } else {
        updated_count(pulls.drop_last()) + if pulls.last() {
            1nat
        } else {
            0nat
        }
    }
}

/// Counts the pulls that fetched a newer image; the deployer is restarted
/// exactly when the count is not zero.
pub fn count_updated(pulls: &Vec<bool>) -> (r: usize)
    ensures
        r == updated_count(pulls@),
        r <= pulls@.len(),
{
    let mut n: usize = 0;
    let mut i: usize = 0;
    while i < pulls.len()
        invariant
            i <= pulls@.len(),
            n == updated_count(pulls@.take(i as int)),
            n <= i,
        decreases pulls@.len() - i,
    {
        assert(pulls@.take(i + 1).drop_last() =~= pulls@.take(i as int));
        if pulls[i] {
            n = n + 1;
        }
        i = i + 1;
    }
    assert(pulls@.take(pulls@.len() as int) =~= pulls@);
    n
}

/// Whether following the deployer's log can stop at the line with this index:
/// an update check, after the first line, found nothing new.
pub fn deploy_settled(index: usize, line: &str) -> (r: bool)
    ensures
        r == (index > 0 && contains_seq(line@, up_to_date_marker())),
{
    contains_text(line, "Already up to date") && index > 0
}

/// Whether an answer to a yes/no question agrees: `y` or `yes`, in any case,
/// with surrounding whitespace ignored.
pub fn confirms(answer: &str) -> (r: bool)
    ensures
        r == (eq_ignore_case(trim(answer@), "yes"@) || eq_ignore_case(trim(answer@), "y"@)),
{
    let a = trimmed(answer);
    eq_ignore_case_exec(a.as_str(), "yes") || eq_ignore_case_exec(a.as_str(), "y")
}

/// The name of an image as the runtime prints it, without surrounding whitespace.
pub fn image_name(output: &str) -> (r: String)
    ensures
        r@ == trim(output@),
{
    trimmed(output)
}

/// The template of one line of the usage snapshot: name, CPU share, memory share.
pub const STATS_FORMAT: &'static str = "table {{.Name}}\t{{.CPUPerc}}\t{{.MemPerc}}";

/// The template of one line of the inspect snapshot: name, status, restart
/// policy or `no`, health or `N/A`, start time, and port mappings or `N/A`.
pub const INSPECT_FORMAT: &'static str = "{{.Name}},{{.State.Status}},{{if .HostConfig.RestartPolicy}}{{if .HostConfig.RestartPolicy.Name}}{{.HostConfig.RestartPolicy.Name}}{{else}}no{{end}}{{else}}no{{end}},{{if index .State \"Health\"}}{{.State.Health.Status}}{{else}}N/A{{end}},{{.State.StartedAt}},{{if .NetworkSettings.Ports}}{{range $key, $value := .NetworkSettings.Ports}}{{$key}}{{if $value}}:{{(index $value 0).HostPort}}{{end}} {{end}}{{else}}N/A{{end}}";

fn strings_of(parts: &Vec<&str>) -> (r: Vec<String>)
    ensures
        views(r@) == parts@.map_values(|p: &str| p@),
{
    let mut out: Vec<String> = Vec::new();
    let mut i: usize = 0;
    while i < parts.len()
        invariant
            i <= parts@.len(),
            views(out@) == parts@.take(i as int).map_values(|p: &str| p@),
        decreases parts@.len() - i,
    {
        let ghost before = out@;
        out.push(String::from_str(parts[i]));
        assert(views(out@) =~= views(before).push(parts@[i as int]@));
        assert(parts@.take(i + 1).map_values(|p: &str| p@) =~= parts@.take(i as int).map_values(
            |p: &str| p@,
        ).push(parts@[i as int]@));
        i = i + 1;
    }
    assert(parts@.take(parts@.len() as int) =~= parts@);
    out
}

fn append_all(out: &mut Vec<String>, more: &Vec<String>)
    ensures
        views(final(out)@) == views(old(out)@) + views(more@),
{
    let mut i: usize = 0;
    while i < more.len()
        invariant
            i <= more@.len(),
            views(out@) == views(old(out)@) + views(more@).take(i as int),
        decreases more@.len() - i,
    {
        let ghost before = out@;
        out.push(more[i].clone());
        assert(views(out@) =~= views(before).push(more@[i as int]@));
        assert(views(more@).take(i + 1) =~= views(more@).take(i as int).push(more@[i as int]@));
        i = i + 1;
    }
    assert(views(more@).take(more@.len() as int) =~= views(more@));
}

/// The arguments that follow a container's log from its last `tail` lines.
pub fn logs_args(name: &str, tail: u32) -> (r: Vec<String>)
    ensures
        views(r@) == seq!["logs"@, name@, "--tail"@, decimal(tail as nat), "--follow"@],
{
    let mut r: Vec<String> = Vec::new();
    r.push(String::from_str("logs"));
    r.push(String::from_str(name));
    r.push(String::from_str("--tail"));
    r.push(decimal_string(tail));
    r.push(String::from_str("--follow"));
    assert(views(r@) =~= seq!["logs"@, name@, "--tail"@, decimal(tail as nat), "--follow"@]);
    r
}

/// The arguments of the usage snapshot of the given containers.
pub fn stats_args(containers: &Vec<String>) -> (r: Vec<String>)
    ensures
        views(r@) == seq!["stats"@, "--no-stream"@, "--format"@, STATS_FORMAT@] + views(
            containers@,
        ),
{
    let mut r = strings_of(&vec!["stats", "--no-stream", "--format", STATS_FORMAT]);
    append_all(&mut r, containers);
    r
}

/// The arguments of the inspect snapshot of the given containers.
pub fn inspect_args(containers: &Vec<String>) -> (r: Vec<String>)
    ensures
        views(r@) == seq!["inspect"@] + views(containers@) + seq!["--format"@, INSPECT_FORMAT@],
{
    let mut r = strings_of(&vec!["inspect"]);
    append_all(&mut r, containers);
    let tail = strings_of(&vec!["--format", INSPECT_FORMAT]);
    append_all(&mut r, &tail);
    r
}

} // verus!
