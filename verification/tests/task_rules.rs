use app_blocker::install::{
    cleanup_command, is_expected_program_dir, is_installed, legacy_files, secure_directory_arguments,
    should_restore_protection, shortcut_file_name,
};
use app_blocker::task::{
    command_outcome, element, escape, failure_message, query, task_arguments, task_info_from_xml, task_xml, TaskAction,
    TaskInfo,
};

#[test]
fn task_definition_is_well_formed() {
    let xml = task_xml(r"C:\Program Files\Windows App Blocker\Windows App Blocker.exe", "S-1-5-21-1-2-3-1001");
    assert_eq!(element(&element(&xml, "Settings").unwrap(), "Enabled"), Some("false".to_string()));
    assert_eq!(element(&xml, "Arguments"), Some("--monitor".to_string()));
    assert!(xml.contains("<UserId>S-1-5-21-1-2-3-1001</UserId>"));
    assert!(TaskInfo { enabled: true, command: r"C:\WINDOWS\System32\WindowsPowerShell\v1.0\powershell.exe".into() }.is_legacy());
}

#[test]
fn queries_read_the_definition() {
    let xml = task_xml(r"C:\A&B\app.exe", "S-1-5-18");
    let info = task_info_from_xml(&xml);
    assert!(!info.enabled);
    assert_eq!(info.command, r"C:\A&amp;B\app.exe");
    assert_eq!(element("<a> x </a>", "a"), Some("x".to_string()));
    assert_eq!(element("<a>x", "a"), None);
    assert_eq!(escape(r#"<&">"#), "&lt;&amp;&quot;&gt;");
    let on = "<Task><Settings><Enabled>true</Enabled></Settings><Actions><Exec><Command>\"C:\\x.exe\"</Command></Exec></Actions></Task>";
    assert_eq!(query(&Ok(on.to_string())), Some(TaskInfo { enabled: true, command: r"C:\x.exe".into() }));
    assert_eq!(query(&Ok("<Task/>".to_string())), Some(TaskInfo { enabled: true, command: String::new() }));
    assert_eq!(query(&Err("ERROR: The system cannot find the file specified.".to_string())), None);
    assert!(!TaskInfo { enabled: true, command: r"C:\x.exe".into() }.is_legacy());
}

#[test]
fn schtasks_runs() {
    let args: Vec<String> = task_arguments(TaskAction::Create, r"C:\Temp\t.xml");
    assert_eq!(args, vec!["/Create", "/TN", "WindowsAppBlocker", "/XML", r"C:\Temp\t.xml", "/F"]);
    assert_eq!(task_arguments(TaskAction::Query, ""), vec!["/Query", "/TN", "WindowsAppBlocker", "/XML"]);
    assert_eq!(task_arguments(TaskAction::Disable, ""), vec!["/Change", "/TN", "WindowsAppBlocker", "/DISABLE"]);
    assert_eq!(task_arguments(TaskAction::End, ""), vec!["/End", "/TN", "WindowsAppBlocker"]);
    assert_eq!(command_outcome(true, "out", "err"), Ok("out".to_string()));
    assert_eq!(command_outcome(false, " out \n", "  "), Err("out".to_string()));
    assert_eq!(command_outcome(false, "out", " bad \n"), Err("bad".to_string()));
    assert_eq!(failure_message(TaskAction::Enable, "denied"), Some("Could not turn protection on: denied".to_string()));
    assert_eq!(failure_message(TaskAction::Delete, "x"), Some("Could not remove the background task: x".to_string()));
    assert_eq!(failure_message(TaskAction::End, "x"), None);
}

#[test]
fn install_decisions() {
    let current = Some(TaskInfo { enabled: true, command: r"C:\Program Files\Windows App Blocker\Windows App Blocker.exe".into() });
    let old = Some(TaskInfo { enabled: true, command: "powershell.exe -File Monitor.ps1".into() });
    assert!(is_installed(true, &current));
    assert!(!is_installed(false, &current));
    assert!(!is_installed(true, &old));
    assert!(!is_installed(true, &None));
    assert!(should_restore_protection(&current));
    assert!(!should_restore_protection(&old));
    assert!(!should_restore_protection(&Some(TaskInfo { enabled: false, command: "x.exe".into() })));
    assert!(is_expected_program_dir(Some(r"c:\program files\windows app blocker")));
    assert!(!is_expected_program_dir(Some(r"c:\program files")));
    assert!(!is_expected_program_dir(None));
    assert_eq!(shortcut_file_name(), "Windows App Blocker.lnk");
    assert_eq!(legacy_files().len(), 5);
    assert_eq!(secure_directory_arguments(r"C:\D")[0], r"C:\D");
    assert_eq!(secure_directory_arguments(r"C:\D")[5], "*S-1-5-32-545:(OI)(CI)RX");
    assert_eq!(
        cleanup_command(r"C:\P"),
        "for /l %i in (1,1,20) do (if exist \"C:\\P\" (ping -n 2 127.0.0.1 >nul & rmdir /s /q \"C:\\P\"))"
    );
}
