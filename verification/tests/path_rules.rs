use app_blocker::paths::{
    config_path, data_dir, glob, installed_exe, is_configured, join, log_path, matches_pattern, normalize, program_dir,
    same_path,
};
use app_blocker::winpath::{extension, file_name, is_absolute};

#[test]
fn executable_matching() {
    let targets = vec![r"C:\Program Files\Example\Example.exe".to_string(), r"D:\Tools\Editor.exe".to_string()];
    assert!(is_configured(Some(r"c:\program files\example\EXAMPLE.EXE"), &targets), "case insensitive");
    assert!(is_configured(Some(r"D:\Tools\Editor.exe"), &targets), "second executable matches");
    assert!(is_configured(Some("D:/Tools/Editor.exe"), &targets), "forward slashes");
    assert!(!is_configured(Some(r"C:\Program Files\Example\Helper.exe"), &targets), "different exe, same folder");
    assert!(!is_configured(Some(r"C:\Program Files\ExampleOther\Example.exe"), &targets), "similar folder");
    assert!(!is_configured(None, &targets), "missing process path");
}

#[test]
fn wildcard_matching() {
    let targets = vec![r"C:\Users\Me\AppData\Local\Discord\app-*\Discord.exe".to_string()];
    assert!(is_configured(Some(r"C:\Users\Me\AppData\Local\Discord\app-1.0.9163\Discord.exe"), &targets), "any version");
    assert!(is_configured(Some(r"c:\users\me\appdata\local\discord\APP-2\discord.exe"), &targets), "case insensitive");
    assert!(!is_configured(Some(r"C:\Users\Me\AppData\Local\Discord\Discord.exe"), &targets), "folder missing");
    assert!(!is_configured(Some(r"C:\Users\Me\AppData\Local\Discord\app-1\x\Discord.exe"), &targets), "star stays in one folder");
    assert!(!is_configured(Some(r"C:\Users\Me\AppData\Local\Discord\other-1\Discord.exe"), &targets), "prefix must match");
    assert!(!is_configured(Some(r"C:\Users\Me\AppData\Local\Discord\app-1\Update.exe"), &targets), "other exe");
}

#[test]
fn segment_globs() {
    assert!(glob("app-*", "app-1.0"));
    assert!(glob("app-*", "app-"));
    assert!(glob("*", ""));
    assert!(glob("a*b*c", "aXXbYYc"));
    assert!(!glob("a*b*c", "aXXbYY"));
    assert!(!glob("app-*", "ap"));
    assert!(glob("", ""));
    assert!(!glob("", "x"));
    assert!(matches_pattern(r"c:\a\app-*\x.exe", r"c:\a\app-2\x.exe"));
    assert!(!matches_pattern(r"c:\a\app-*\x.exe", r"c:\a\app-2\y\x.exe"));
    assert!(matches_pattern(r"c:\a\x.exe", r"c:\a\x.exe"));
    assert!(!matches_pattern(r"c:\a\x.exe", r"c:\a\y.exe"));
}

#[test]
fn comparison_forms() {
    assert_eq!(normalize("   "), None);
    assert_eq!(normalize(""), None);
    assert_eq!(normalize(r"C:\Tools\Tool.EXE\"), normalize(r"c:/tools/tool.exe"));
    assert!(same_path(r"C:\Tools\Tool.exe", r" c:\tools\TOOL.exe "));
    assert!(!same_path(r"C:\Tools\Tool.exe", r"C:\Tools\Other.exe"));
    assert!(!same_path("", ""));
    let n = normalize(r"C:\Tools\Tool.EXE").unwrap();
    assert_eq!(n, n.to_lowercase());
    assert!(!n.contains('/'));
    assert!(!n.ends_with('\\'));
}

#[test]
fn install_locations() {
    assert_eq!(program_dir(None), r"C:\Program Files\Windows App Blocker");
    assert_eq!(program_dir(Some(r"E:\Apps\")), r"E:\Apps\Windows App Blocker");
    assert_eq!(installed_exe(None), r"C:\Program Files\Windows App Blocker\Windows App Blocker.exe");
    assert_eq!(data_dir(None), r"C:\ProgramData\WindowsAppBlocker");
    assert_eq!(config_path(Some(r"D:\Data")), r"D:\Data\WindowsAppBlocker\config.json");
    assert_eq!(log_path(None), r"C:\ProgramData\WindowsAppBlocker\WindowsAppBlocker.log");
    assert_eq!(join("", "x"), "x");
    assert_eq!(join("C:", "x"), "C:x");
    assert_eq!(join("C:/", "x"), "C:/x");
    assert_eq!(join(r"C:\a", "x"), r"C:\a\x");
}

#[test]
fn windows_path_reading() {
    assert!(is_absolute(r"C:\a"));
    assert!(is_absolute("C:/a"));
    assert!(is_absolute(r"\\server\share\a"));
    assert!(!is_absolute(r"\a"));
    assert!(!is_absolute("C:a"));
    assert!(!is_absolute("a"));
    assert_eq!(file_name(r"C:\a\b.exe"), Some("b.exe".to_string()));
    assert_eq!(file_name(r"C:\a\b.exe\"), Some("b.exe".to_string()));
    assert_eq!(file_name(r"C:\a\b.exe\."), Some("b.exe".to_string()));
    assert_eq!(file_name(r"C:\a\.."), None);
    assert_eq!(file_name(r"C:\"), None);
    assert_eq!(file_name(r"\\server\share"), None);
    assert_eq!(file_name(r"\\server\share\x.exe"), Some("x.exe".to_string()));
    assert_eq!(extension(r"C:\a\b.tar.gz"), Some("gz".to_string()));
    assert_eq!(extension(r"C:\a\.hidden"), None);
    assert_eq!(extension(r"C:\a\name."), Some(String::new()));
    assert_eq!(extension(r"C:\a\noext"), None);
}
