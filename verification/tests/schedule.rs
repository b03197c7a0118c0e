use sysray::schedule::{
    create_task_args, launch_agents, plist_for_agent, scheduled_tasks, service_unit,
    systemd_units, task_command, timer_unit, unix_runner_script, windows_runner_script, Trigger,
};

#[test]
fn three_schedules_everywhere() {
    let units = systemd_units();
    assert_eq!(units.len(), 3);
    assert_eq!(units[1].maintenance_args, &["prune", "--retention-days", "15"]);
    assert_eq!(units[0].on_calendar, "*:0/5");
    let agents = launch_agents();
    assert_eq!(agents.len(), 3);
    assert_eq!(agents[0].trigger, Trigger::Interval(300));
    assert_eq!(agents[2].trigger, Trigger::Calendar { hour: 2, minute: 30 });
    let tasks = scheduled_tasks();
    assert_eq!(tasks.len(), 3);
    assert_eq!(tasks[0].schedule_args, &["/SC", "MINUTE", "/MO", "5"]);
}

#[test]
fn runner_scripts() {
    let unix = unix_runner_script("/bin/sysray", "/etc/s.toml", &["prune", "--retention-days", "15"]);
    assert_eq!(
        unix,
        "#!/usr/bin/env sh\nexec \"/bin/sysray\" --config \"/etc/s.toml\" maintenance \"prune\" \"--retention-days\" \"15\"\n"
    );
    let win = windows_runner_script("C:\\s.exe", "C:\\s.toml", &["daily-snapshot"]);
    assert_eq!(win, "@echo off\r\n\"C:\\s.exe\" --config \"C:\\s.toml\" maintenance \"daily-snapshot\"\r\n");
    assert_eq!(unix_runner_script("e", "c", &[]), "#!/usr/bin/env sh\nexec \"e\" --config \"c\" maintenance\n");
}

#[test]
fn systemd_unit_texts() {
    let units = systemd_units();
    let service = service_unit(&units[0], "/r/snapshot.sh");
    assert_eq!(
        service,
        "[Unit]\nDescription=Sysray scheduled task sysray-snapshot.service\n\n[Service]\nType=oneshot\nExecStart=/r/snapshot.sh\n"
    );
    let timer = timer_unit(&units[2]);
    assert_eq!(
        timer,
        "[Unit]\nDescription=Sysray timer sysray-archive.timer\n\n[Timer]\nOnCalendar=*-*-* 02:30:00\nPersistent=true\nUnit=sysray-archive.service\n\n[Install]\nWantedBy=timers.target\n"
    );
}

#[test]
fn launchd_plists() {
    let agents = launch_agents();
    let interval = plist_for_agent(&agents[0], "/r/snapshot.sh");
    assert!(interval.contains("<string>com.zabadehut.sysray.snapshot</string>"));
    assert!(interval.contains("  <key>StartInterval</key>\n  <integer>300</integer>\n  <key>RunAtLoad</key>"));
    let calendar = plist_for_agent(&agents[2], "/r/archive.sh");
    assert!(calendar.contains(
        "    <key>Hour</key>\n    <integer>2</integer>\n    <key>Minute</key>\n    <integer>30</integer>\n"
    ));
    assert!(calendar.starts_with("<?xml version=\"1.0\" encoding=\"UTF-8\"?>\n"));
    assert!(calendar.ends_with("  <key>RunAtLoad</key>\n  <false/>\n</dict>\n</plist>\n"));
}

#[test]
fn windows_task_commands() {
    let tasks = scheduled_tasks();
    let command = task_command("C:\\r\\prune.cmd");
    assert_eq!(command, "cmd.exe /c \"\\\"C:\\r\\prune.cmd\\\"\"");
    let args = create_task_args(&tasks[1], &command);
    assert_eq!(
        args,
        vec!["/Create", "/TN", "Sysray Prune", "/SC", "DAILY", "/ST", "02:00", "/TR", command.as_str(), "/F"]
    );
}
