use app_blocker::config::validate_executable;
use app_blocker::detect::{
    add_checked, add_label, added_message, catalog, catalog_index_for, covers, is_already_added, join_location,
    location_file_name, location_variable, registry_queries, registry_value_path, scan, toggle_category, Candidate,
    Category, Found,
};
use app_blocker::paths::same_path;

#[test]
fn already_added_counts_patterns_and_copies() {
    let list = vec![r"C:\Apps\Chat\app-*\Chat.exe".to_string(), r"C:\Games\Steam\steam.exe".to_string()];
    assert!(covers(&list, r"c:\apps\chat\app-*\chat.exe"), "same pattern");
    assert!(covers(&list, r"C:\Apps\Chat\app-3\Chat.exe"), "concrete copy of a pattern");
    assert!(covers(&list, r"C:\Games\Steam\Steam.exe"), "same file");
    assert!(!covers(&list, r"C:\Apps\Other\app-*\Chat.exe"), "different pattern");
    assert!(!covers(&list, r"D:\Steam\steam.exe"), "another copy");
}

#[test]
fn scan_does_not_fail() {
    // What is found depends on this computer; every result must be a valid, unique entry.
    let found = scan(&[], &[]);
    for f in &found {
        validate_executable(&f.path).unwrap();
        assert!(!f.already_added);
        assert_eq!(found.iter().filter(|g| same_path(&g.path, &f.path)).count(), 1, "{}", f.path);
    }
}

fn candidate(index: usize, path: &str, copies: &[&str]) -> Candidate {
    Candidate { index, path: path.to_string(), copies: copies.iter().map(|c| c.to_string()).collect() }
}

#[test]
fn scan_keeps_first_places_in_catalog_order() {
    let existing = vec![r"C:\Users\Me\AppData\Local\Discord\app-*\Discord.exe".to_string()];
    let candidates = vec![
        candidate(20, r"C:\Users\Me\AppData\Local\Discord\app-*\Discord.exe", &[r"C:\Users\Me\AppData\Local\Discord\app-1\Discord.exe"]),
        candidate(8, r"C:\Program Files (x86)\Steam\steam.exe", &[r"C:\Program Files (x86)\Steam\steam.exe"]),
        candidate(0, r"C:\Program Files\Google\Chrome\Application\chrome.exe", &[]),
        candidate(8, r"c:\program files (x86)\steam\STEAM.EXE", &[]),
        candidate(20, r"C:\Users\Me\AppData\Local\Discord\app-2\Discord.exe", &[]),
        candidate(8, r"D:\Games\Steam\steam.exe", &[]),
    ];
    let found = scan(&existing, &candidates);
    let seen: Vec<(&str, &str, bool)> = found.iter().map(|f| (f.name, f.path.as_str(), f.already_added)).collect();
    assert_eq!(
        seen,
        vec![
            ("Google Chrome", r"C:\Program Files\Google\Chrome\Application\chrome.exe", false),
            ("Steam", r"C:\Program Files (x86)\Steam\steam.exe", false),
            ("Steam", r"D:\Games\Steam\steam.exe", false),
            ("Discord", r"C:\Users\Me\AppData\Local\Discord\app-*\Discord.exe", true),
        ]
    );
    assert_eq!(found[0].category, Category::Browsers);
    assert_eq!(found[1].category, Category::Games);
    assert_eq!(found[3].category, Category::Chat);
}

#[test]
fn copies_decide_already_added() {
    let existing = vec![r"C:\A\app-*\x.exe".to_string()];
    assert!(is_already_added(&existing, r"C:\A\app-*\x.exe", &[]));
    assert!(is_already_added(&existing, r"D:\B\*\x.exe", &[r"C:\A\app-1\x.exe".to_string()]));
    assert!(!is_already_added(&existing, r"D:\B\*\x.exe", &[r"C:\A\app-1\x.exe".to_string(), r"D:\B\1\x.exe".to_string()]));
    assert!(!is_already_added(&existing, r"D:\B\*\x.exe", &[]), "nothing on disk is not added");
    assert!(!is_already_added(&[], r"C:\A\app-*\x.exe", &[r"C:\A\app-1\x.exe".to_string()]));
}

#[test]
fn catalog_is_complete_and_ordered() {
    let known = catalog();
    assert_eq!(known.len(), 27);
    let mut last = 0;
    for k in &known {
        assert!(k.category.rank() >= last);
        last = k.category.rank();
        assert!(!k.locations.is_empty());
        for l in &k.locations {
            let (variable, rest) = location_variable(l).unwrap();
            assert!(!variable.is_empty());
            validate_executable(&join_location(r"C:\Base\", &rest)).unwrap();
        }
    }
    assert_eq!(known[8].name, "Steam");
    assert_eq!(Category::all().map(|c| c.name()), ["Web browsers", "Games and game stores", "Chat and social", "Music and video"]);
}

#[test]
fn programs_are_recognised_by_file_name() {
    assert_eq!(catalog_index_for("steam.exe"), Some(8));
    assert_eq!(catalog_index_for("DISCORD.EXE"), Some(20));
    assert_eq!(catalog_index_for("firefox.exe"), Some(2), "Tor Browser shares the name; the first entry wins");
    assert_eq!(catalog_index_for("opera.exe"), Some(4));
    assert_eq!(catalog_index_for("notepad.exe"), None);
    assert_eq!(location_file_name(r"%LocalAppData%\Discord\app-*\Discord.exe"), "Discord.exe");
}

#[test]
fn locations_expand() {
    assert_eq!(
        location_variable(r"%ProgramFiles%\A\b.exe"),
        Some(("ProgramFiles".to_string(), r"\A\b.exe".to_string()))
    );
    assert_eq!(location_variable(r"C:\b.exe"), None);
    assert_eq!(location_variable("%Unclosed"), None);
    assert_eq!(join_location(r"C:\Program Files\\", r"\A\b.exe"), r"C:\Program Files\A\b.exe");
    assert_eq!(join_location(r"C:\Program Files", r"\A\b.exe"), r"C:\Program Files\A\b.exe");
}

#[test]
fn registry_lookups() {
    let steam = registry_queries(8);
    let keys: Vec<(bool, String, Option<String>)> = steam;
    assert_eq!(keys.len(), 7);
    assert_eq!(keys[0], (true, r"SOFTWARE\Microsoft\Windows\CurrentVersion\App Paths\steam.exe".to_string(), None));
    assert_eq!(keys[1], (true, r"SOFTWARE\WOW6432Node\Microsoft\Windows\CurrentVersion\App Paths\steam.exe".to_string(), None));
    assert_eq!(keys[2], (false, r"SOFTWARE\Microsoft\Windows\CurrentVersion\App Paths\steam.exe".to_string(), None));
    assert_eq!(keys[6], (false, r"Software\Valve\Steam".to_string(), Some("SteamExe".to_string())));
    assert!(registry_queries(20).is_empty(), "a versioned folder has no App Paths entry");
    assert_eq!(registry_value_path(r#"  "c:/program files (x86)/steam/steam.exe"  "#), r"c:\program files (x86)\steam\steam.exe");
}

fn found(name: &'static str, category: Category, path: &str, already_added: bool) -> Found {
    Found { name, category, path: path.to_string(), already_added }
}

#[test]
fn finder_ticks_and_adds() {
    let list = vec![
        found("Google Chrome", Category::Browsers, r"C:\Chrome\chrome.exe", false),
        found("Steam", Category::Games, r"C:\Steam\steam.exe", true),
        found("Epic Games Launcher", Category::Games, r"C:\Epic\Epic.exe", false),
        found("Fortnite", Category::Games, r"C:\Fortnite\F.exe", false),
    ];
    let mut checked = vec![false, false, true, false];
    toggle_category(&list, &mut checked, Category::Games);
    assert_eq!(checked, vec![false, false, true, true], "not all open games were ticked, so all are");
    toggle_category(&list, &mut checked, Category::Games);
    assert_eq!(checked, vec![false, false, false, false], "all open games were ticked, so they clear");
    toggle_category(&list, &mut checked, Category::Browsers);
    assert_eq!(checked, vec![true, false, false, false]);

    let mut executables = vec![r"c:\chrome\CHROME.exe".to_string()];
    checked[3] = true;
    let added = add_checked(&mut executables, &list, &checked);
    assert_eq!(added, 1);
    assert_eq!(executables, vec![r"c:\chrome\CHROME.exe".to_string(), r"C:\Fortnite\F.exe".to_string()]);
    assert_eq!(add_label(0), "Add to block list");
    assert_eq!(add_label(3), "Add 3 apps");
    assert_eq!(added_message(1), "1 app added. Save to start blocking it.");
    assert_eq!(added_message(0), "0 apps added. Save to start blocking them.");
}
