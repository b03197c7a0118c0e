//! The recurring maintenance schedules and the text of the files that install
//! them: runner scripts, systemd units, launchd property lists and Windows
//! scheduled-task commands.
use vstd::prelude::*;
use crate::numbers::push_decimal;
use crate::text::{append_str, decimal};

verus! {

/// One systemd timer with its service and runner script.
#[derive(Debug, Clone, Copy)]
pub struct ScheduleUnit {
    pub service_name: &'static str,
    pub timer_name: &'static str,
    pub runner_name: &'static str,
    pub maintenance_args: &'static [&'static str],
    pub on_calendar: &'static str,
}

/// When a launchd agent runs.
#[derive(Debug, Clone, Copy, PartialEq, Eq, Structural)]
pub enum Trigger {
    Interval(u32),
    Calendar { hour: u8, minute: u8 },
}

/// One launchd agent with its runner script.
#[derive(Debug, Clone, Copy)]
pub struct ScheduleAgent {
    pub label: &'static str,
    pub file_name: &'static str,
    pub runner_name: &'static str,
    pub maintenance_args: &'static [&'static str],
    pub trigger: Trigger,
}

/// One Windows scheduled task with its runner script.
#[derive(Debug, Clone, Copy)]
pub struct ScheduledTask {
    pub name: &'static str,
    pub runner_name: &'static str,
    pub maintenance_args: &'static [&'static str],
    pub schedule_args: &'static [&'static str],
}

/// The three schedules: a snapshot every five minutes, pruning at 02:00 with
/// 15 days of retention, archiving at 02:30 of files 15 to 60 days old.
pub open spec fn systemd_units_spec() -> Seq<ScheduleUnit> {
    seq![
        ScheduleUnit {
            service_name: "sysray-snapshot.service",
            timer_name: "sysray-snapshot.timer",
            runner_name: "snapshot.sh",
            maintenance_args: &["daily-snapshot"],
            on_calendar: "*:0/5",
        },
        ScheduleUnit {
            service_name: "sysray-prune.service",
            timer_name: "sysray-prune.timer",
            runner_name: "prune.sh",
            maintenance_args: &["prune", "--retention-days", "15"],
            on_calendar: "*-*-* 02:00:00",
        },
        ScheduleUnit {
            service_name: "sysray-archive.service",
            timer_name: "sysray-archive.timer",
            runner_name: "archive.sh",
            maintenance_args: &["archive", "--min-age-days", "15", "--max-age-days", "60"],
            on_calendar: "*-*-* 02:30:00",
        },
    ]
}

/// The systemd timers.
pub fn systemd_units() -> (r: Vec<ScheduleUnit>)
    ensures
        r@ == systemd_units_spec(),
{
    vec![
        ScheduleUnit {
            service_name: "sysray-snapshot.service",
            timer_name: "sysray-snapshot.timer",
            runner_name: "snapshot.sh",
            maintenance_args: &["daily-snapshot"],
            on_calendar: "*:0/5",
        },
        ScheduleUnit {
            service_name: "sysray-prune.service",
            timer_name: "sysray-prune.timer",
            runner_name: "prune.sh",
            maintenance_args: &["prune", "--retention-days", "15"],
            on_calendar: "*-*-* 02:00:00",
        },
        ScheduleUnit {
            service_name: "sysray-archive.service",
            timer_name: "sysray-archive.timer",
            runner_name: "archive.sh",
            maintenance_args: &["archive", "--min-age-days", "15", "--max-age-days", "60"],
            on_calendar: "*-*-* 02:30:00",
        },
    ]
}

pub open spec fn launch_agents_spec() -> Seq<ScheduleAgent> {
    seq![
        ScheduleAgent {
            label: "com.zabadehut.sysray.snapshot",
            file_name: "com.zabadehut.sysray.snapshot.plist",
            runner_name: "snapshot.sh",
            maintenance_args: &["daily-snapshot"],
            trigger: Trigger::Interval(300),
        },
        ScheduleAgent {
            label: "com.zabadehut.sysray.prune",
            file_name: "com.zabadehut.sysray.prune.plist",
            runner_name: "prune.sh",
            maintenance_args: &["prune", "--retention-days", "15"],
            trigger: Trigger::Calendar { hour: 2, minute: 0 },
        },
        ScheduleAgent {
            label: "com.zabadehut.sysray.archive",
            file_name: "com.zabadehut.sysray.archive.plist",
            runner_name: "archive.sh",
            maintenance_args: &["archive", "--min-age-days", "15", "--max-age-days", "60"],
            trigger: Trigger::Calendar { hour: 2, minute: 30 },
        },
    ]
}

/// The launchd agents.
pub fn launch_agents() -> (r: Vec<ScheduleAgent>)
    ensures
        r@ == launch_agents_spec(),
{
    vec![
        ScheduleAgent {
            label: "com.zabadehut.sysray.snapshot",
            file_name: "com.zabadehut.sysray.snapshot.plist",
            runner_name: "snapshot.sh",
            maintenance_args: &["daily-snapshot"],
            trigger: Trigger::Interval(300),
        },
        ScheduleAgent {
            label: "com.zabadehut.sysray.prune",
            file_name: "com.zabadehut.sysray.prune.plist",
            runner_name: "prune.sh",
            maintenance_args: &["prune", "--retention-days", "15"],
            trigger: Trigger::Calendar { hour: 2, minute: 0 },
        },
        ScheduleAgent {
            label: "com.zabadehut.sysray.archive",
            file_name: "com.zabadehut.sysray.archive.plist",
            runner_name: "archive.sh",
            maintenance_args: &["archive", "--min-age-days", "15", "--max-age-days", "60"],
            trigger: Trigger::Calendar { hour: 2, minute: 30 },
        },
    ]
}

pub open spec fn scheduled_tasks_spec() -> Seq<ScheduledTask> {
    seq![
        ScheduledTask {
            name: "Sysray Snapshot",
            runner_name: "snapshot.cmd",
            maintenance_args: &["daily-snapshot"],
            schedule_args: &["/SC", "MINUTE", "/MO", "5"],
        },
        ScheduledTask {
            name: "Sysray Prune",
            runner_name: "prune.cmd",
            maintenance_args: &["prune", "--retention-days", "15"],
            schedule_args: &["/SC", "DAILY", "/ST", "02:00"],
        },
        ScheduledTask {
            name: "Sysray Archive",
            runner_name: "archive.cmd",
            maintenance_args: &["archive", "--min-age-days", "15", "--max-age-days", "60"],
            schedule_args: &["/SC", "DAILY", "/ST", "02:30"],
        },
    ]
}

/// The Windows scheduled tasks.
pub fn scheduled_tasks() -> (r: Vec<ScheduledTask>)
    ensures
        r@ == scheduled_tasks_spec(),
{
    vec![
        ScheduledTask {
            name: "Sysray Snapshot",
            runner_name: "snapshot.cmd",
            maintenance_args: &["daily-snapshot"],
            schedule_args: &["/SC", "MINUTE", "/MO", "5"],
        },
        ScheduledTask {
            name: "Sysray Prune",
            runner_name: "prune.cmd",
            maintenance_args: &["prune", "--retention-days", "15"],
            schedule_args: &["/SC", "DAILY", "/ST", "02:00"],
        },
        ScheduledTask {
            name: "Sysray Archive",
            runner_name: "archive.cmd",
            maintenance_args: &["archive", "--min-age-days", "15", "--max-age-days", "60"],
            schedule_args: &["/SC", "DAILY", "/ST", "02:30"],
        },
    ]
}

/// ` "a" "b" ...`: each argument quoted, after a space.
pub open spec fn quoted_args(args: Seq<&str>) -> Seq<char>
    decreases args.len(),
{
    if args.len() == 0 {
        seq![]
    } else {
        quoted_args(args.drop_last()) + " \""@ + args.last()@ + "\""@
    }
}

fn push_quoted_args(out: &mut String, args: &[&str])
    ensures
        final(out)@ == old(out)@ + quoted_args(args@),
{
    let ghost start = out@;
    for i in 0..args.len()
        invariant
            out@ == start + quoted_args(args@.take(i as int)),
    {
        append_str(out, " \"");
        append_str(out, args[i]);
        append_str(out, "\"");
        assert(args@.take(i + 1).drop_last() == args@.take(i as int));
    }
    assert(args@.take(args@.len() as int) == args@);
}

/// The POSIX shell runner: runs the executable's maintenance command with
/// the configuration file and the given arguments.
pub open spec fn unix_runner_text(exe: Seq<char>, config: Seq<char>, args: Seq<&str>) -> Seq<char> {
    "#!/usr/bin/env sh\nexec \""@ + exe + "\" --config \""@ + config + "\" maintenance"@
        + quoted_args(args) + "\n"@
}

/// The shell runner script of a schedule.
pub fn unix_runner_script(exe: &str, config: &str, maintenance_args: &[&str]) -> (r: String)
    ensures
        r@ == unix_runner_text(exe@, config@, maintenance_args@),
{
    let mut script = "#!/usr/bin/env sh\nexec \"".to_string();
    append_str(&mut script, exe);
    append_str(&mut script, "\" --config \"");
    append_str(&mut script, config);
    append_str(&mut script, "\" maintenance");
    push_quoted_args(&mut script, maintenance_args);
    append_str(&mut script, "\n");
    script
}

/// The Windows batch runner, with CRLF line ends.
pub open spec fn windows_runner_text(exe: Seq<char>, config: Seq<char>, args: Seq<&str>) -> Seq<
    char,
> {
    "@echo off\r\n\""@ + exe + "\" --config \""@ + config + "\" maintenance"@ + quoted_args(args)
        + "\r\n"@
}

/// The batch runner script of a schedule.
pub fn windows_runner_script(exe: &str, config: &str, maintenance_args: &[&str]) -> (r: String)
    ensures
        r@ == windows_runner_text(exe@, config@, maintenance_args@),
{
    let mut script = "@echo off\r\n\"".to_string();
    append_str(&mut script, exe);
    append_str(&mut script, "\" --config \"");
    append_str(&mut script, config);
    append_str(&mut script, "\" maintenance");
    push_quoted_args(&mut script, maintenance_args);
    append_str(&mut script, "\r\n");
    script
}

/// The oneshot service that runs a runner script.
pub open spec fn service_unit_text(service_name: Seq<char>, runner_path: Seq<char>) -> Seq<char> {
    "[Unit]\nDescription=Sysray scheduled task "@ + service_name
        + "\n\n[Service]\nType=oneshot\nExecStart="@ + runner_path + "\n"@
}

/// The systemd service unit of a schedule.
pub fn service_unit(unit: &ScheduleUnit, runner_path: &str) -> (r: String)
    ensures
        r@ == service_unit_text(unit.service_name@, runner_path@),
{
    let mut text = "[Unit]\nDescription=Sysray scheduled task ".to_string();
    append_str(&mut text, unit.service_name);
    append_str(&mut text, "\n\n[Service]\nType=oneshot\nExecStart=");
    append_str(&mut text, runner_path);
    append_str(&mut text, "\n");
    text
}

/// The persistent timer that starts a service on its calendar.
pub open spec fn timer_unit_text(unit: ScheduleUnit) -> Seq<char> {
    "[Unit]\nDescription=Sysray timer "@ + unit.timer_name@ + "\n\n[Timer]\nOnCalendar="@
        + unit.on_calendar@ + "\nPersistent=true\nUnit="@ + unit.service_name@
        + "\n\n[Install]\nWantedBy=timers.target\n"@
}

/// The systemd timer unit of a schedule.
pub fn timer_unit(unit: &ScheduleUnit) -> (r: String)
    ensures
        r@ == timer_unit_text(*unit),
{
    let mut text = "[Unit]\nDescription=Sysray timer ".to_string();
    append_str(&mut text, unit.timer_name);
    append_str(&mut text, "\n\n[Timer]\nOnCalendar=");
    append_str(&mut text, unit.on_calendar);
    append_str(&mut text, "\nPersistent=true\nUnit=");
    append_str(&mut text, unit.service_name);
    append_str(&mut text, "\n\n[Install]\nWantedBy=timers.target\n");
    text
}

/// The trigger keys of a launchd property list.
pub open spec fn trigger_text(trigger: Trigger) -> Seq<char> {
    match trigger {
        Trigger::Interval(seconds) => "  <key>StartInterval</key>\n  <integer>"@ + decimal(
            seconds as nat,
        ) + "</integer>\n"@,
        Trigger::Calendar { hour, minute } =>
            "  <key>StartCalendarInterval</key>\n  <dict>\n    <key>Hour</key>\n    <integer>"@
                + decimal(hour as nat) + "</integer>\n    <key>Minute</key>\n    <integer>"@
                + decimal(minute as nat) + "</integer>\n  </dict>\n"@,
    }
}

/// The launchd property list of an agent that runs a runner script.
pub open spec fn plist_text(agent: ScheduleAgent, runner_path: Seq<char>) -> Seq<char> {
    "<?xml version=\"1.0\" encoding=\"UTF-8\"?>\n<!DOCTYPE plist PUBLIC \"-//Apple//DTD PLIST 1.0//EN\" \"http://www.apple.com/DTDs/PropertyList-1.0.dtd\">\n<plist version=\"1.0\">\n<dict>\n  <key>Label</key>\n  <string>"@
        + agent.label@ + "</string>\n  <key>ProgramArguments</key>\n  <array>\n    <string>"@
        + runner_path + "</string>\n  </array>\n"@ + trigger_text(agent.trigger)
        + "  <key>RunAtLoad</key>\n  <false/>\n</dict>\n</plist>\n"@
}

/// The launchd property list of an agent.
pub fn plist_for_agent(agent: &ScheduleAgent, runner_path: &str) -> (r: String)
    ensures
        r@ == plist_text(*agent, runner_path@),
{
    let mut text = "<?xml version=\"1.0\" encoding=\"UTF-8\"?>\n<!DOCTYPE plist PUBLIC \"-//Apple//DTD PLIST 1.0//EN\" \"http://www.apple.com/DTDs/PropertyList-1.0.dtd\">\n<plist version=\"1.0\">\n<dict>\n  <key>Label</key>\n  <string>".to_string();
    append_str(&mut text, agent.label);
    append_str(&mut text, "</string>\n  <key>ProgramArguments</key>\n  <array>\n    <string>");
    append_str(&mut text, runner_path);
    append_str(&mut text, "</string>\n  </array>\n");
    let ghost before = text@;
    match agent.trigger {
        Trigger::Interval(seconds) => {
            append_str(&mut text, "  <key>StartInterval</key>\n  <integer>");
            push_decimal(&mut text, seconds as u64);
            append_str(&mut text, "</integer>\n");
        },
        Trigger::Calendar { hour, minute } => {
            append_str(
                &mut text,
                "  <key>StartCalendarInterval</key>\n  <dict>\n    <key>Hour</key>\n    <integer>",
            );
            push_decimal(&mut text, hour as u64);
            append_str(&mut text, "</integer>\n    <key>Minute</key>\n    <integer>");
            push_decimal(&mut text, minute as u64);
            append_str(&mut text, "</integer>\n  </dict>\n");
        },
    }
    assert(text@ == before + trigger_text(agent.trigger));
    append_str(&mut text, "  <key>RunAtLoad</key>\n  <false/>\n</dict>\n</plist>\n");
    text
}

/// The command that a scheduled task runs: `cmd.exe` on the quoted runner path.
pub open spec fn task_command_text(runner_path: Seq<char>) -> Seq<char> {
    "cmd.exe /c \"\\\""@ + runner_path + "\\\"\""@
}

/// The command a scheduled task runs.
pub fn task_command(runner_path: &str) -> (r: String)
    ensures
        r@ == task_command_text(runner_path@),
{
    let mut text = "cmd.exe /c \"\\\"".to_string();
    append_str(&mut text, runner_path);
    append_str(&mut text, "\\\"\"");
    text
}

/// The `schtasks` arguments that create a task running `command`.
pub open spec fn create_task_args_spec(task: ScheduledTask, command: &str) -> Seq<&str> {
    seq!["/Create", "/TN", task.name] + task.schedule_args@ + seq!["/TR", command, "/F"]
}

/// The `schtasks` arguments that create a task.
pub fn create_task_args<'a>(task: &ScheduledTask, command: &'a str) -> (r: Vec<&'a str>)
    ensures
        r@ == create_task_args_spec(*task, command),
{
    let mut args: Vec<&'a str> = Vec::new();
    args.push("/Create");
    args.push("/TN");
    args.push(task.name);
    let ghost head = args@;
    for i in 0..task.schedule_args.len()
        invariant
            args@ == head + task.schedule_args@.take(i as int),
    {
        args.push(task.schedule_args[i]);
        assert(task.schedule_args@.take(i + 1) == task.schedule_args@.take(i as int).push(
            task.schedule_args@[i as int],
        ));
    }
    assert(task.schedule_args@.take(task.schedule_args@.len() as int) == task.schedule_args@);
    args.push("/TR");
    args.push(command);
    args.push("/F");
    assert(args@ =~= create_task_args_spec(*task, command));
    args
}

} // verus!
