//! Commonly blocked apps (browsers, game launchers, chat) and how to recognise them.
//!
//! Three sources, in order, find them on a computer: the usual install folders, the registry's
//! App Paths (and a few app-specific keys), and the programs running right now. Apps that install
//! each update into a new versioned folder are suggested as a `*` path, so the block keeps working
//! after they update.
use crate::config::{eq_ignore_ascii_case, eq_ignore_ascii_case_exec, opt_text};
use crate::paths::{
    configured_by, configured_spec, covered_by_any, lemma_nothing_normalized, matches_any, normalize,
    normalize_all, normalize_outcome, normalize_outcomes, opt_str, opt_texts,
};
use crate::config::texts;
use crate::text::{chars_of, find_char, first_index, string_of, subrange_chars, trim};
use vstd::prelude::*;
use vstd::string::*;

verus! {

broadcast use vstd::string::group_string_axioms;

#[derive(Clone, Copy, Debug, PartialEq, Eq, Structural)]
pub enum Category {
    Browsers,
    Games,
    Chat,
    Music,
}

/// Position of a category in display order.
pub open spec fn category_rank(c: Category) -> int {
    match c {
        Category::Browsers => 0,
        Category::Games => 1,
        Category::Chat => 2,
        Category::Music => 3,
    }
}

impl Category {
    pub fn all() -> (r: [Category; 4])
        ensures
            r@ == seq![Category::Browsers, Category::Games, Category::Chat, Category::Music],
    {
        [Category::Browsers, Category::Games, Category::Chat, Category::Music]
    }

    pub fn name(self) -> (r: &'static str)
        ensures
            r@ == match self {
                Category::Browsers => "Web browsers"@,
                Category::Games => "Games and game stores"@,
                Category::Chat => "Chat and social"@,
                Category::Music => "Music and video"@,
            },
    {
        match self {
            Category::Browsers => "Web browsers",
            Category::Games => "Games and game stores",
            Category::Chat => "Chat and social",
            Category::Music => "Music and video",
        }
    }

    pub fn rank(self) -> (r: u8)
        ensures
            r == category_rank(self),
    {
        match self {
            Category::Browsers => 0,
            Category::Games => 1,
            Category::Chat => 2,
            Category::Music => 3,
        }
    }
}

/// A commonly blocked app.
pub struct Known {
    pub name: &'static str,
    pub category: Category,
    /// Paths starting with `%Variable%` (an environment variable, or `%Desktop%`). `*` marks a
    /// versioned folder.
    pub locations: Vec<&'static str>,
    /// `HKEY_CURRENT_USER` keys and values holding the path of the program.
    pub user_registry: Vec<(&'static str, &'static str)>,
}

impl View for Known {
    type V = (Seq<char>, Category, Seq<Seq<char>>, Seq<(Seq<char>, Seq<char>)>);

    open spec fn view(&self) -> Self::V {
        (
            self.name@,
            self.category,
            self.locations@.map_values(|l: &'static str| l@),
            self.user_registry@.map_values(|e: (&'static str, &'static str)| (e.0@, e.1@)),
        )
    }
}

/// The number of apps the catalog knows.
pub open spec fn catalog_len() -> int {
    27
}

/// Entry `i` of the catalog: name, category, locations and user registry values.
pub open spec fn catalog_entry(i: int) -> (Seq<char>, Category, Seq<Seq<char>>, Seq<(Seq<char>, Seq<char>)>) {
    if i == 0 {
        ("Google Chrome"@, Category::Browsers, seq!["%ProgramFiles%\\Google\\Chrome\\Application\\chrome.exe"@, "%ProgramFiles(x86)%\\Google\\Chrome\\Application\\chrome.exe"@, "%LocalAppData%\\Google\\Chrome\\Application\\chrome.exe"@], seq![])
    } else if i == 1 {
        ("Microsoft Edge"@, Category::Browsers, seq!["%ProgramFiles(x86)%\\Microsoft\\Edge\\Application\\msedge.exe"@, "%ProgramFiles%\\Microsoft\\Edge\\Application\\msedge.exe"@], seq![])
    } else if i == 2 {
        ("Mozilla Firefox"@, Category::Browsers, seq!["%ProgramFiles%\\Mozilla Firefox\\firefox.exe"@, "%ProgramFiles(x86)%\\Mozilla Firefox\\firefox.exe"@, "%LocalAppData%\\Mozilla Firefox\\firefox.exe"@], seq![])
    } else if i == 3 {
        ("Brave"@, Category::Browsers, seq!["%ProgramFiles%\\BraveSoftware\\Brave-Browser\\Application\\brave.exe"@, "%ProgramFiles(x86)%\\BraveSoftware\\Brave-Browser\\Application\\brave.exe"@, "%LocalAppData%\\BraveSoftware\\Brave-Browser\\Application\\brave.exe"@], seq![])
    } else if i == 4 {
        ("Opera"@, Category::Browsers, seq!["%LocalAppData%\\Programs\\Opera\\opera.exe"@, "%LocalAppData%\\Programs\\Opera\\*\\opera.exe"@, "%ProgramFiles%\\Opera\\opera.exe"@, "%ProgramFiles%\\Opera\\*\\opera.exe"@], seq![])
    } else if i == 5 {
        ("Opera GX"@, Category::Browsers, seq!["%LocalAppData%\\Programs\\Opera GX\\opera.exe"@, "%LocalAppData%\\Programs\\Opera GX\\*\\opera.exe"@], seq![])
    } else if i == 6 {
        ("Vivaldi"@, Category::Browsers, seq!["%LocalAppData%\\Vivaldi\\Application\\vivaldi.exe"@, "%ProgramFiles%\\Vivaldi\\Application\\vivaldi.exe"@], seq![])
    } else if i == 7 {
        ("Tor Browser"@, Category::Browsers, seq!["%Desktop%\\Tor Browser\\Browser\\firefox.exe"@], seq![])
    } else if i == 8 {
        ("Steam"@, Category::Games, seq!["%ProgramFiles(x86)%\\Steam\\steam.exe"@, "%ProgramFiles%\\Steam\\steam.exe"@], seq![("Software\\Valve\\Steam"@, "SteamExe"@)])
    } else if i == 9 {
        ("Epic Games Launcher"@, Category::Games, seq!["%ProgramFiles(x86)%\\Epic Games\\Launcher\\Portal\\Binaries\\Win64\\EpicGamesLauncher.exe"@, "%ProgramFiles(x86)%\\Epic Games\\Launcher\\Portal\\Binaries\\Win32\\EpicGamesLauncher.exe"@, "%ProgramFiles%\\Epic Games\\Launcher\\Portal\\Binaries\\Win64\\EpicGamesLauncher.exe"@], seq![])
    } else if i == 10 {
        ("Fortnite"@, Category::Games, seq!["%ProgramFiles%\\Epic Games\\Fortnite\\FortniteGame\\Binaries\\Win64\\FortniteClient-Win64-Shipping.exe"@], seq![])
    } else if i == 11 {
        ("Battle.net"@, Category::Games, seq!["%ProgramFiles(x86)%\\Battle.net\\Battle.net.exe"@, "%ProgramFiles(x86)%\\Battle.net\\Battle.net Launcher.exe"@], seq![])
    } else if i == 12 {
        ("EA app"@, Category::Games, seq!["%ProgramFiles%\\Electronic Arts\\EA Desktop\\EA Desktop\\EADesktop.exe"@], seq![])
    } else if i == 13 {
        ("Ubisoft Connect"@, Category::Games, seq!["%ProgramFiles(x86)%\\Ubisoft\\Ubisoft Game Launcher\\UbisoftConnect.exe"@, "%ProgramFiles(x86)%\\Ubisoft\\Ubisoft Game Launcher\\upc.exe"@], seq![])
    } else if i == 14 {
        ("GOG Galaxy"@, Category::Games, seq!["%ProgramFiles(x86)%\\GOG Galaxy\\GalaxyClient.exe"@], seq![])
    } else if i == 15 {
        ("Riot Client"@, Category::Games, seq!["%SystemDrive%\\Riot Games\\Riot Client\\RiotClientServices.exe"@], seq![])
    } else if i == 16 {
        ("League of Legends"@, Category::Games, seq!["%SystemDrive%\\Riot Games\\League of Legends\\LeagueClient.exe"@, "%SystemDrive%\\Riot Games\\League of Legends\\Game\\League of Legends.exe"@], seq![])
    } else if i == 17 {
        ("VALORANT"@, Category::Games, seq!["%SystemDrive%\\Riot Games\\VALORANT\\live\\VALORANT.exe"@], seq![])
    } else if i == 18 {
        ("Roblox"@, Category::Games, seq!["%LocalAppData%\\Roblox\\Versions\\*\\RobloxPlayerBeta.exe"@, "%ProgramFiles(x86)%\\Roblox\\Versions\\*\\RobloxPlayerBeta.exe"@], seq![])
    } else if i == 19 {
        ("Minecraft Launcher"@, Category::Games, seq!["%ProgramFiles(x86)%\\Minecraft Launcher\\MinecraftLauncher.exe"@], seq![])
    } else if i == 20 {
        ("Discord"@, Category::Chat, seq!["%LocalAppData%\\Discord\\app-*\\Discord.exe"@], seq![])
    } else if i == 21 {
        ("Discord PTB"@, Category::Chat, seq!["%LocalAppData%\\DiscordPTB\\app-*\\DiscordPTB.exe"@], seq![])
    } else if i == 22 {
        ("Discord Canary"@, Category::Chat, seq!["%LocalAppData%\\DiscordCanary\\app-*\\DiscordCanary.exe"@], seq![])
    } else if i == 23 {
        ("Telegram"@, Category::Chat, seq!["%AppData%\\Telegram Desktop\\Telegram.exe"@], seq![])
    } else if i == 24 {
        ("WhatsApp"@, Category::Chat, seq!["%ProgramFiles%\\WindowsApps\\5319275A.WhatsAppDesktop_*\\WhatsApp.exe"@], seq![])
    } else if i == 25 {
        ("Slack"@, Category::Chat, seq!["%LocalAppData%\\slack\\app-*\\slack.exe"@, "%ProgramFiles%\\Slack\\slack.exe"@], seq![])
    } else if i == 26 {
        ("Spotify"@, Category::Music, seq!["%AppData%\\Spotify\\Spotify.exe"@, "%ProgramFiles%\\WindowsApps\\SpotifyAB.SpotifyMusic_*\\Spotify.exe"@], seq![])
    } else {
        (Seq::empty(), Category::Browsers, Seq::empty(), Seq::empty())
    }
}

/// The apps this finder knows, in the order they are offered within a category.
#[verifier::rlimit(100)]
pub fn catalog() -> (r: Vec<Known>)
    ensures
        r@.len() == catalog_len(),
        forall|i: int| 0 <= i < catalog_len() ==> (#[trigger] r@[i])@ == catalog_entry(i),
{
    let mut r: Vec<Known> = Vec::new();
    r.push(Known { name: "Google Chrome", category: Category::Browsers, locations: vec!["%ProgramFiles%\\Google\\Chrome\\Application\\chrome.exe", "%ProgramFiles(x86)%\\Google\\Chrome\\Application\\chrome.exe", "%LocalAppData%\\Google\\Chrome\\Application\\chrome.exe"], user_registry: Vec::new() });
    assert(r@[0]@ == catalog_entry(0));
    r.push(Known { name: "Microsoft Edge", category: Category::Browsers, locations: vec!["%ProgramFiles(x86)%\\Microsoft\\Edge\\Application\\msedge.exe", "%ProgramFiles%\\Microsoft\\Edge\\Application\\msedge.exe"], user_registry: Vec::new() });
    assert(r@[1]@ == catalog_entry(1));
    r.push(Known { name: "Mozilla Firefox", category: Category::Browsers, locations: vec!["%ProgramFiles%\\Mozilla Firefox\\firefox.exe", "%ProgramFiles(x86)%\\Mozilla Firefox\\firefox.exe", "%LocalAppData%\\Mozilla Firefox\\firefox.exe"], user_registry: Vec::new() });
    assert(r@[2]@ == catalog_entry(2));
    r.push(Known { name: "Brave", category: Category::Browsers, locations: vec!["%ProgramFiles%\\BraveSoftware\\Brave-Browser\\Application\\brave.exe", "%ProgramFiles(x86)%\\BraveSoftware\\Brave-Browser\\Application\\brave.exe", "%LocalAppData%\\BraveSoftware\\Brave-Browser\\Application\\brave.exe"], user_registry: Vec::new() });
    assert(r@[3]@ == catalog_entry(3));
    r.push(Known { name: "Opera", category: Category::Browsers, locations: vec!["%LocalAppData%\\Programs\\Opera\\opera.exe", "%LocalAppData%\\Programs\\Opera\\*\\opera.exe", "%ProgramFiles%\\Opera\\opera.exe", "%ProgramFiles%\\Opera\\*\\opera.exe"], user_registry: Vec::new() });
    assert(r@[4]@ == catalog_entry(4));
    r.push(Known { name: "Opera GX", category: Category::Browsers, locations: vec!["%LocalAppData%\\Programs\\Opera GX\\opera.exe", "%LocalAppData%\\Programs\\Opera GX\\*\\opera.exe"], user_registry: Vec::new() });
    assert(r@[5]@ == catalog_entry(5));
    r.push(Known { name: "Vivaldi", category: Category::Browsers, locations: vec!["%LocalAppData%\\Vivaldi\\Application\\vivaldi.exe", "%ProgramFiles%\\Vivaldi\\Application\\vivaldi.exe"], user_registry: Vec::new() });
    assert(r@[6]@ == catalog_entry(6));
    r.push(Known { name: "Tor Browser", category: Category::Browsers, locations: vec!["%Desktop%\\Tor Browser\\Browser\\firefox.exe"], user_registry: Vec::new() });
    assert(r@[7]@ == catalog_entry(7));
    r.push(Known { name: "Steam", category: Category::Games, locations: vec!["%ProgramFiles(x86)%\\Steam\\steam.exe", "%ProgramFiles%\\Steam\\steam.exe"], user_registry: vec![("Software\\Valve\\Steam", "SteamExe")] });
    assert(r@[8]@ == catalog_entry(8));
    r.push(Known { name: "Epic Games Launcher", category: Category::Games, locations: vec!["%ProgramFiles(x86)%\\Epic Games\\Launcher\\Portal\\Binaries\\Win64\\EpicGamesLauncher.exe", "%ProgramFiles(x86)%\\Epic Games\\Launcher\\Portal\\Binaries\\Win32\\EpicGamesLauncher.exe", "%ProgramFiles%\\Epic Games\\Launcher\\Portal\\Binaries\\Win64\\EpicGamesLauncher.exe"], user_registry: Vec::new() });
    assert(r@[9]@ == catalog_entry(9));
    r.push(Known { name: "Fortnite", category: Category::Games, locations: vec!["%ProgramFiles%\\Epic Games\\Fortnite\\FortniteGame\\Binaries\\Win64\\FortniteClient-Win64-Shipping.exe"], user_registry: Vec::new() });
    assert(r@[10]@ == catalog_entry(10));
    r.push(Known { name: "Battle.net", category: Category::Games, locations: vec!["%ProgramFiles(x86)%\\Battle.net\\Battle.net.exe", "%ProgramFiles(x86)%\\Battle.net\\Battle.net Launcher.exe"], user_registry: Vec::new() });
    assert(r@[11]@ == catalog_entry(11));
    r.push(Known { name: "EA app", category: Category::Games, locations: vec!["%ProgramFiles%\\Electronic Arts\\EA Desktop\\EA Desktop\\EADesktop.exe"], user_registry: Vec::new() });
    assert(r@[12]@ == catalog_entry(12));
    r.push(Known { name: "Ubisoft Connect", category: Category::Games, locations: vec!["%ProgramFiles(x86)%\\Ubisoft\\Ubisoft Game Launcher\\UbisoftConnect.exe", "%ProgramFiles(x86)%\\Ubisoft\\Ubisoft Game Launcher\\upc.exe"], user_registry: Vec::new() });
    assert(r@[13]@ == catalog_entry(13));
    r.push(Known { name: "GOG Galaxy", category: Category::Games, locations: vec!["%ProgramFiles(x86)%\\GOG Galaxy\\GalaxyClient.exe"], user_registry: Vec::new() });
    assert(r@[14]@ == catalog_entry(14));
    r.push(Known { name: "Riot Client", category: Category::Games, locations: vec!["%SystemDrive%\\Riot Games\\Riot Client\\RiotClientServices.exe"], user_registry: Vec::new() });
    assert(r@[15]@ == catalog_entry(15));
    r.push(Known { name: "League of Legends", category: Category::Games, locations: vec!["%SystemDrive%\\Riot Games\\League of Legends\\LeagueClient.exe", "%SystemDrive%\\Riot Games\\League of Legends\\Game\\League of Legends.exe"], user_registry: Vec::new() });
    assert(r@[16]@ == catalog_entry(16));
    r.push(Known { name: "VALORANT", category: Category::Games, locations: vec!["%SystemDrive%\\Riot Games\\VALORANT\\live\\VALORANT.exe"], user_registry: Vec::new() });
    assert(r@[17]@ == catalog_entry(17));
    r.push(Known { name: "Roblox", category: Category::Games, locations: vec!["%LocalAppData%\\Roblox\\Versions\\*\\RobloxPlayerBeta.exe", "%ProgramFiles(x86)%\\Roblox\\Versions\\*\\RobloxPlayerBeta.exe"], user_registry: Vec::new() });
    assert(r@[18]@ == catalog_entry(18));
    r.push(Known { name: "Minecraft Launcher", category: Category::Games, locations: vec!["%ProgramFiles(x86)%\\Minecraft Launcher\\MinecraftLauncher.exe"], user_registry: Vec::new() });
    assert(r@[19]@ == catalog_entry(19));
    r.push(Known { name: "Discord", category: Category::Chat, locations: vec!["%LocalAppData%\\Discord\\app-*\\Discord.exe"], user_registry: Vec::new() });
    assert(r@[20]@ == catalog_entry(20));
    r.push(Known { name: "Discord PTB", category: Category::Chat, locations: vec!["%LocalAppData%\\DiscordPTB\\app-*\\DiscordPTB.exe"], user_registry: Vec::new() });
    assert(r@[21]@ == catalog_entry(21));
    r.push(Known { name: "Discord Canary", category: Category::Chat, locations: vec!["%LocalAppData%\\DiscordCanary\\app-*\\DiscordCanary.exe"], user_registry: Vec::new() });
    assert(r@[22]@ == catalog_entry(22));
    r.push(Known { name: "Telegram", category: Category::Chat, locations: vec!["%AppData%\\Telegram Desktop\\Telegram.exe"], user_registry: Vec::new() });
    assert(r@[23]@ == catalog_entry(23));
    r.push(Known { name: "WhatsApp", category: Category::Chat, locations: vec!["%ProgramFiles%\\WindowsApps\\5319275A.WhatsAppDesktop_*\\WhatsApp.exe"], user_registry: Vec::new() });
    assert(r@[24]@ == catalog_entry(24));
    r.push(Known { name: "Slack", category: Category::Chat, locations: vec!["%LocalAppData%\\slack\\app-*\\slack.exe", "%ProgramFiles%\\Slack\\slack.exe"], user_registry: Vec::new() });
    assert(r@[25]@ == catalog_entry(25));
    r.push(Known { name: "Spotify", category: Category::Music, locations: vec!["%AppData%\\Spotify\\Spotify.exe", "%ProgramFiles%\\WindowsApps\\SpotifyAB.SpotifyMusic_*\\Spotify.exe"], user_registry: Vec::new() });
    assert(r@[26]@ == catalog_entry(26));
    r
}


/// The variable a catalog location starts with and the rest of the location: `%Var%rest`.
pub open spec fn location_parts(location: Seq<char>) -> Option<(Seq<char>, Seq<char>)> {
    if location.len() > 0 && location[0] == '%' && location.drop_first().contains('%') {
        let r = location.drop_first();
        let i = first_index(r, '%');
        Some((r.subrange(0, i), r.subrange(i + 1, r.len() as int)))
    } else {
        None
    }
}

/// Splits `%Var%rest` into the variable's name and the rest.
pub fn location_variable(location: &str) -> (r: Option<(String, String)>)
    ensures
        match r {
            Some((v, rest)) => location_parts(location@) == Some((v@, rest@)),
            None => location_parts(location@) is None,
        },
{
    let c = chars_of(location);
    if c.len() == 0 || c[0] != '%' {
        return None;
    }
    let n = c.len();
    let r = subrange_chars(&c, 1, n);
    assert(r@ == location@.drop_first());
    match find_char(&r, '%') {
        Some(i) => {
            let rn = r.len();
            let v = subrange_chars(&r, 0, i);
            let rest = subrange_chars(&r, i + 1, rn);
            assert(r@.contains('%')) by {
                assert(r@[i as int] == '%');
            }
            Some((string_of(&v), string_of(&rest)))
        },
        None => None,
    }
}

/// A catalog location with its variable replaced by `base` (trailing `\`s dropped).
pub fn join_location(base: &str, rest: &str) -> (r: String)
    ensures
        r@ == crate::paths::trim_end_backslashes(base@) + rest@,
{
    let c = chars_of(base);
    let mut k: usize = c.len();
    assert(c@.take(k as int) == c@);
    while k > 0 && c[k - 1] == '\\'
        invariant
            k <= c@.len(),
            c@ == base@,
            crate::paths::trim_end_backslashes(c@) == crate::paths::trim_end_backslashes(c@.take(k as int)),
        decreases k,
    {
        assert(c@.take(k as int).drop_last() == c@.take(k - 1));
        k = k - 1;
    }
    let kept = subrange_chars(&c, 0, k);
    assert(kept@ == c@.take(k as int));
    proof {
        if kept@.len() > 0 {
            assert(kept@.last() == c@[k - 1]);
        }
    }
    let mut s = string_of(&kept);
    s.append(rest);
    s
}

/// Where the last folder separator (`\` or `/`) of `s` stands, or -1 when it has none.
pub open spec fn last_separator(s: Seq<char>) -> int
    decreases s.len(),
{
    if s.len() == 0 {
        -1
    } else if crate::paths::is_separator(s.last()) {
        s.len() - 1
    } else {
        last_separator(s.drop_last())
    }
}

/// The file name of a catalog location: what follows its last separator.
pub open spec fn file_name_of(s: Seq<char>) -> Seq<char> {
    s.subrange(last_separator(s) + 1, s.len() as int)
}

proof fn lemma_last_separator(s: Seq<char>, k: int)
    requires
        0 <= k <= s.len(),
        forall|j: int| k <= j < s.len() ==> !crate::paths::is_separator(#[trigger] s[j]),
    ensures
        last_separator(s) == last_separator(s.take(k)),
        -1 <= last_separator(s) < s.len(),
    decreases s.len() - k,
{
    if k < s.len() {
        assert(s.drop_last() == s.take(s.len() - 1));
        lemma_last_separator(s.drop_last(), k);
        assert(s.drop_last().take(k) == s.take(k));
    } else {
        assert(s.take(k) == s);
        lemma_last_separator_range(s);
    }
}

proof fn lemma_last_separator_range(s: Seq<char>)
    ensures
        -1 <= last_separator(s) < s.len(),
    decreases s.len(),
{
    if s.len() > 0 && !crate::paths::is_separator(s.last()) {
        lemma_last_separator_range(s.drop_last());
    }
}

/// The file name of a catalog location, e.g. `chrome.exe`.
pub fn location_file_name(location: &str) -> (r: String)
    ensures
        r@ == file_name_of(location@),
{
    let c = chars_of(location);
    let n = c.len();
    let mut k: usize = n;
    proof {
        lemma_last_separator(c@, n as int);
    }
    while k > 0 && !(c[k - 1] == '\\' || c[k - 1] == '/')
        invariant
            n == c@.len(),
            c@ == location@,
            k <= n,
            forall|j: int| k <= j < n ==> !crate::paths::is_separator(#[trigger] c@[j]),
        decreases k,
    {
        k = k - 1;
    }
    proof {
        lemma_last_separator(c@, k as int);
        if k > 0 {
            assert(c@.take(k as int).last() == c@[k - 1]);
            assert(last_separator(c@.take(k as int)) == k - 1);
        } else {
            assert(last_separator(c@.take(0)) == -1);
        }
    }
    string_of(&subrange_chars(&c, k, n))
}

/// The file names of entry `i`'s locations.
pub open spec fn catalog_names(i: int) -> Seq<Seq<char>> {
    catalog_entry(i).2.map_values(|l: Seq<char>| file_name_of(l))
}

/// Whether one of `names` is `exe` without regard to ASCII case.
pub open spec fn names_match(names: Seq<Seq<char>>, exe: Seq<char>) -> bool {
    exists|k: int| 0 <= k < names.len() && eq_ignore_ascii_case(#[trigger] names[k], exe)
}

/// Entry `i` is the first catalog entry one of whose file names is `exe`.
pub open spec fn first_named_at(exe: Seq<char>, i: int) -> bool {
    &&& 0 <= i < catalog_len()
    &&& names_match(catalog_names(i), exe)
    &&& forall|j: int| 0 <= j < i ==> !names_match(#[trigger] catalog_names(j), exe)
}

/// Each optional string as optional text.
pub open spec fn name_texts(v: Seq<Option<String>>) -> Seq<Option<Seq<char>>> {
    v.map_values(|o: Option<String>| opt_text(o))
}

/// The text of each string.
pub open spec fn texts_of(v: Seq<String>) -> Seq<Seq<char>> {
    v.map_values(|s: String| s@)
}

fn names_match_exec(names: &Vec<String>, exe: &[char]) -> (r: bool)
    ensures
        r == names_match(texts_of(names@), exe@),
{
    let ghost nv = texts_of(names@);
    for k in 0..names.len()
        invariant
            nv == texts_of(names@),
            forall|j: int| 0 <= j < k ==> !eq_ignore_ascii_case(#[trigger] nv[j], exe@),
    {
        let nc = chars_of(names[k].as_str());
        if eq_ignore_ascii_case_exec(&nc, exe) {
            assert(nv[k as int] == names@[k as int]@);
            return true;
        }
        assert(nv[k as int] == names@[k as int]@);
    }
    false
}

/// The file names of entry `i`'s locations, computed.
fn entry_names(known: &Known) -> (r: Vec<String>)
    ensures
        texts_of(r@) == known@.2.map_values(|l: Seq<char>| file_name_of(l)),
{
    let mut r: Vec<String> = Vec::new();
    let locations = &known.locations;
    for j in 0..locations.len()
        invariant
            locations@ == known.locations@,
            r@.len() == j,
            forall|m: int| 0 <= m < j ==> (#[trigger] r@[m])@ == file_name_of(locations@[m]@),
    {
        let name = location_file_name(locations[j]);
        r.push(name);
    }
    assert(texts_of(r@) =~= known@.2.map_values(|l: Seq<char>| file_name_of(l)));
    r
}

/// The catalog entry whose program has this file name, e.g. `steam.exe` (without regard to ASCII
/// case): the first entry with a location of that name.
pub fn catalog_index_for(exe_name: &str) -> (r: Option<usize>)
    ensures
        match r {
            Some(i) => first_named_at(exe_name@, i as int),
            None => forall|i: int| 0 <= i < catalog_len() ==> !names_match(#[trigger] catalog_names(i), exe_name@),
        },
{
    let known = catalog();
    let exe = chars_of(exe_name);
    for i in 0..known.len()
        invariant
            exe@ == exe_name@,
            known@.len() == catalog_len(),
            forall|j: int| 0 <= j < catalog_len() ==> (#[trigger] known@[j])@ == catalog_entry(j),
            forall|j: int| 0 <= j < i ==> !names_match(#[trigger] catalog_names(j), exe_name@),
    {
        let names = entry_names(&known[i]);
        assert(known@[i as int]@ == catalog_entry(i as int));
        if names_match_exec(&names, &exe) {
            return Some(i);
        }
    }
    None
}

/// Decides, from the compared forms, whether a path (maybe a pattern) is already in a list:
/// equal to one of its entries, or, when it has no `*`, matched by one of them.
pub open spec fn covers_spec(list: Seq<Option<Seq<char>>>, path: Option<Seq<char>>, has_star: bool) -> bool {
    match path {
        None => false,
        Some(p) => (exists|i: int| 0 <= i < list.len() && #[trigger] list[i] == Some(p)) || (!has_star
            && covered_by_any(p, list)),
    }
}

pub fn covers_normalized(list: &[Option<String>], path: Option<&str>, has_star: bool) -> (r: bool)
    ensures
        r == covers_spec(
            name_texts(list@),
            match path {
                Some(p) => Some(p@),
                None => None,
            },
            has_star,
        ),
{
    let ghost lv = name_texts(list@);
    let p = match path {
        Some(p) => p,
        None => {
            return false;
        },
    };
    for i in 0..list.len()
        invariant
            lv == name_texts(list@),
            path == Some(p),
            forall|j: int| 0 <= j < i ==> #[trigger] lv[j] != Some(p@),
    {
        match &list[i] {
            Some(e) => {
                if crate::config::same_text(e.as_str(), p) {
                    assert(lv[i as int] == Some(p@));
                    return true;
                }
                assert(lv[i as int] == Some(e@));
            },
            None => {
                assert(lv[i as int] == None::<Seq<char>>);
            },
        }
    }
    if has_star {
        return false;
    }
    matches_any(p, list)
}

/// Whether `np` and `ns` are what normalising `path` and each entry of `list` may give.
pub open spec fn covers_by(
    path: Seq<char>,
    list: Seq<Seq<char>>,
    np: Option<Seq<char>>,
    ns: Seq<Option<Seq<char>>>,
) -> bool {
    normalize_outcome(path, np) && normalize_outcomes(list, ns)
}

/// Whether `r` is what deciding if `list` covers `path` may give: `covers_spec` over what
/// normalising them may give.
pub open spec fn may_cover(list: Seq<Seq<char>>, path: Seq<char>, r: bool) -> bool {
    exists|np: Option<Seq<char>>, ns: Seq<Option<Seq<char>>>|
        #[trigger] covers_by(path, list, np, ns) && r == covers_spec(ns, np, path.contains('*'))
}

/// Whether `path` (maybe a pattern) is equal to, or matched by, one of `list`.
pub fn covers(list: &[String], path: &str) -> (r: bool)
    ensures
        r ==> trim(path@).len() > 0 && list@.len() > 0,
        may_cover(texts(list@), path@, r),
{
    let normalized = normalize_all(list);
    let pc = chars_of(path);
    let has_star = find_char(&pc, '*').is_some();
    let np = normalize(path);
    let r = match &np {
        Some(n) => covers_normalized(&normalized, Some(n.as_str()), has_star),
        None => false,
    };
    proof {
        let ns = opt_texts(normalized@);
        assert(name_texts(normalized@) == ns);
        assert(has_star == path@.contains('*')) by {
            if path@.contains('*') {
                let i = choose|i: int| 0 <= i < path@.len() && path@[i] == '*';
                assert(pc@[i] == '*');
            }
        }
        assert(covers_by(path@, texts(list@), opt_text(np), ns));
        if r {
            assert(ns.len() == normalized@.len());
        }
    }
    r
}

/// Whether `r` is what deciding if `process` is one of `executables` may give.
pub open spec fn may_configure(process: Seq<char>, executables: Seq<Seq<char>>, r: bool) -> bool {
    exists|np: Option<Seq<char>>, ns: Seq<Option<Seq<char>>>|
        #[trigger] configured_by(Some(process), executables, np, ns) && r == configured_spec(np, ns)
}

/// Not matching is always a possible outcome, since normalising may fail.
pub proof fn lemma_may_not_configure(process: Seq<char>, executables: Seq<Seq<char>>)
    ensures
        may_configure(process, executables, false),
{
    let ns = Seq::new(executables.len(), |i: int| None::<Seq<char>>);
    lemma_nothing_normalized(executables);
    assert(configured_by(Some(process), executables, None, ns));
}

/// Whether `c` and `cs` are what deciding if the block list covers an app's path, and if it
/// covers each of its copies, may give.
pub open spec fn already_added_by(
    existing: Seq<Seq<char>>,
    path: Seq<char>,
    copies: Seq<Seq<char>>,
    c: bool,
    cs: Seq<bool>,
) -> bool {
    &&& may_cover(existing, path, c)
    &&& cs.len() == copies.len()
    &&& forall|i: int| 0 <= i < copies.len() ==> may_configure(copies[i], existing, #[trigger] cs[i])
}

/// Whether `r` is what deciding if an app is already added may give: the block list covers its
/// path, or it has copies and the list covers each of them, for what normalising may give.
pub open spec fn may_be_already_added(existing: Seq<Seq<char>>, path: Seq<char>, copies: Seq<Seq<char>>, r: bool) -> bool {
    exists|c: bool, cs: Seq<bool>|
        #[trigger] already_added_by(existing, path, copies, c, cs) && r == (c || (cs.len() > 0
            && forall|i: int| 0 <= i < cs.len() ==> cs[i]))
}

/// Whether `flag` may be the mark of an app found at `path`: what deciding if it is already
/// added may give for a candidate with that path and its copies.
pub open spec fn flag_possible(existing: Seq<Seq<char>>, candidates: Seq<Candidate>, path: Seq<char>, flag: bool) -> bool {
    exists|k: int|
        #![trigger candidates[k]]
        0 <= k < candidates.len() && candidates[k].path@ == path && may_be_already_added(
            existing,
            path,
            texts(candidates[k].copies@),
            flag,
        )
}

/// Whether every copy of an app is already covered by the block list: the path itself is, or it
/// has copies on disk and each of them is configured.
pub fn is_already_added(existing: &[String], path: &str, copies: &[String]) -> (r: bool)
    ensures
        r ==> existing@.len() > 0,
        may_be_already_added(texts(existing@), path@, texts(copies@), r),
{
    let ghost ev = texts(existing@);
    let ghost cv = texts(copies@);
    let c = covers(existing, path);
    if c {
        proof {
            let cs = Seq::new(cv.len(), |i: int| false);
            assert forall|i: int| 0 <= i < cv.len() implies may_configure(cv[i], ev, #[trigger] cs[i]) by {
                lemma_may_not_configure(cv[i], ev);
            }
            assert(already_added_by(ev, path@, cv, c, cs));
        }
        return true;
    }
    if copies.len() == 0 {
        proof {
            let cs = Seq::<bool>::empty();
            assert(already_added_by(ev, path@, cv, c, cs));
        }
        return false;
    }
    let ghost mut cs: Seq<bool> = Seq::empty();
    for i in 0..copies.len()
        invariant
            existing@.len() > 0 || i == 0,
            ev == texts(existing@),
            cv == texts(copies@),
            may_cover(ev, path@, c),
            !c,
            cs.len() == i,
            forall|k: int| 0 <= k < i ==> #[trigger] cs[k],
            forall|k: int| 0 <= k < i ==> may_configure(cv[k], ev, #[trigger] cs[k]),
    {
        let here = crate::paths::is_configured(Some(copies[i].as_str()), existing);
        proof {
            let (np, ns) = choose|np: Option<Seq<char>>, ns: Seq<Option<Seq<char>>>|
                #[trigger] configured_by(Some(copies@[i as int]@), ev, np, ns) && here
                    == configured_spec(np, ns);
            assert(cv[i as int] == copies@[i as int]@);
            assert(configured_by(Some(cv[i as int]), ev, np, ns));
            assert(may_configure(cv[i as int], ev, here));
        }
        if !here {
            proof {
                let all = cs.push(false) + Seq::new((cv.len() - i - 1) as nat, |k: int| false);
                assert forall|k: int| 0 <= k < cv.len() implies may_configure(cv[k], ev, #[trigger] all[k]) by {
                    if k < i {
                        assert(all[k] == cs[k]);
                    } else if k > i {
                        lemma_may_not_configure(cv[k], ev);
                    }
                }
                assert(already_added_by(ev, path@, cv, c, all));
                assert(!all[i as int]);
            }
            return false;
        }
        proof {
            cs = cs.push(here);
        }
    }
    proof {
        assert(already_added_by(ev, path@, cv, c, cs));
    }
    true
}

/// An app found on this computer.
pub struct Found {
    pub name: &'static str,
    pub category: Category,
    /// What to add to the block list; may contain `*` in folder names.
    pub path: String,
    /// Every copy of this app is already covered by the block list.
    pub already_added: bool,
}

/// The paths of the candidates found so far.
pub open spec fn found_texts(found: Seq<(usize, String)>) -> Seq<Seq<char>> {
    found.map_values(|e: (usize, String)| e.1@)
}

/// Adds a candidate `(catalog index, path)` unless a path already found covers it.
pub fn add_candidate(found: &mut Vec<(usize, String)>, index: usize, path: String)
    ensures
        final(found)@ == old(found)@ || final(found)@ == old(found)@.push((index, path)),
        old(found)@.len() == 0 ==> final(found)@ == old(found)@.push((index, path)),
        exists|c: bool|
            #[trigger] may_cover(found_texts(old(found)@), path@, c) && if c {
                final(found)@ == old(found)@
            } else {
                final(found)@ == old(found)@.push((index, path))
            },
{
    let mut known: Vec<String> = Vec::new();
    for i in 0..found.len()
        invariant
            known@.len() == i,
            i <= found@.len(),
            forall|k: int| 0 <= k < i ==> #[trigger] known@[k]@ == found@[k].1@,
    {
        known.push(found[i].1.clone());
    }
    assert(texts(known@) =~= found_texts(found@));
    let c = covers(known.as_slice(), path.as_str());
    if !c {
        found.push((index, path));
    }
}

/// The App Paths key of a program under a software key.
pub open spec fn app_paths_key(root: Seq<char>, exe: Seq<char>) -> Seq<char> {
    root + "\\Microsoft\\Windows\\CurrentVersion\\App Paths\\"@ + exe
}

/// A registry lookup: in the machine's hive (else the user's), a key, and a named value (else the
/// key's default value).
pub type RegistryQuery = (bool, String, Option<String>);

pub open spec fn query_view(q: RegistryQuery) -> (bool, Seq<char>, Option<Seq<char>>) {
    (q.0, q.1@, opt_text(q.2))
}

/// The lookups for one catalog location: App Paths of its program under the machine's 64-bit and
/// 32-bit software keys and under the user's; none for a location with a `*`.
pub open spec fn location_queries(location: Seq<char>) -> Seq<(bool, Seq<char>, Option<Seq<char>>)> {
    if location.contains('*') {
        seq![]
    } else {
        let exe = file_name_of(location);
        seq![
            (true, app_paths_key("SOFTWARE"@, exe), None),
            (true, app_paths_key("SOFTWARE\\WOW6432Node"@, exe), None),
            (false, app_paths_key("SOFTWARE"@, exe), None),
        ]
    }
}

pub open spec fn locations_queries(locations: Seq<Seq<char>>) -> Seq<(bool, Seq<char>, Option<Seq<char>>)>
    decreases locations.len(),
{
    if locations.len() == 0 {
        seq![]
    } else {
        locations_queries(locations.drop_last()) + location_queries(locations.last())
    }
}

/// The registry lookups that may give the path of entry `i`'s program: App Paths for each of its
/// locations, then its own user keys.
pub open spec fn registry_queries_spec(i: int) -> Seq<(bool, Seq<char>, Option<Seq<char>>)> {
    locations_queries(catalog_entry(i).2) + catalog_entry(i).3.map_values(
        |e: (Seq<char>, Seq<char>)| (false, e.0, Some(e.1)),
    )
}

fn has_star(s: &str) -> (r: bool)
    ensures
        r == s@.contains('*'),
{
    let c = chars_of(s);
    match find_char(&c, '*') {
        Some(i) => {
            assert(s@[i as int] == '*');
            true
        },
        None => false,
    }
}

/// The registry lookups for catalog entry `index`; see [`registry_queries_spec`].
pub fn registry_queries(index: usize) -> (r: Vec<RegistryQuery>)
    requires
        index < catalog_len(),
    ensures
        r@.map_values(|q: RegistryQuery| query_view(q)) == registry_queries_spec(index as int),
{
    let known = catalog();
    let entry = &known[index];
    assert(entry@ == catalog_entry(index as int));
    let locations = &entry.locations;
    let ghost locs = entry@.2;
    let mut r: Vec<RegistryQuery> = Vec::new();
    for j in 0..locations.len()
        invariant
            locations@ == entry.locations@,
            locs == locations@.map_values(|l: &'static str| l@),
            r@.map_values(|q: RegistryQuery| query_view(q)) == locations_queries(locs.take(j as int)),
    {
        let ghost before = r@;
        assert(locs.take(j + 1).drop_last() == locs.take(j as int));
        assert(locs.take(j + 1).last() == locations@[j as int]@);
        let location = locations[j];
        if !has_star(location) {
            let exe = location_file_name(location);
            let roots: [(bool, &str); 3] = [(true, "SOFTWARE"), (true, "SOFTWARE\\WOW6432Node"), (false, "SOFTWARE")];
            for m in 0..3
                invariant
                    r@.len() == before.len() + m,
                    forall|t: int| 0 <= t < before.len() ==> r@[t] == before[t],
                    exe@ == file_name_of(location@),
                    forall|t: int| before.len() <= t < before.len() + m ==> query_view(#[trigger] r@[t]) == location_queries(location@)[t - before.len()],
                    !location@.contains('*'),
                    roots@ == seq![(true, "SOFTWARE"), (true, "SOFTWARE\\WOW6432Node"), (false, "SOFTWARE")],
            {
                let (machine, root) = roots[m];
                let mut key = String::from_str(root);
                key.append("\\Microsoft\\Windows\\CurrentVersion\\App Paths\\");
                key.append(exe.as_str());
                r.push((machine, key, None));
            }
            assert(r@.map_values(|q: RegistryQuery| query_view(q)) =~= before.map_values(|q: RegistryQuery| query_view(q)) + location_queries(location@));
        } else {
            assert(location_queries(location@) =~= seq![]);
            assert(r@.map_values(|q: RegistryQuery| query_view(q)) =~= before.map_values(|q: RegistryQuery| query_view(q)) + location_queries(location@));
        }
    }
    assert(locs.take(locations@.len() as int) == locs);
    let ghost base = r@;
    let user = &entry.user_registry;
    let ghost users = entry@.3;
    for j in 0..user.len()
        invariant
            user@ == entry.user_registry@,
            users == user@.map_values(|e: (&'static str, &'static str)| (e.0@, e.1@)),
            r@.len() == base.len() + j,
            forall|t: int| 0 <= t < base.len() ==> r@[t] == base[t],
            forall|t: int| base.len() <= t < base.len() + j ==> query_view(#[trigger] r@[t]) == (false, users[t - base.len()].0, Some(users[t - base.len()].1)),
    {
        let (key, value) = user[j];
        r.push((false, String::from_str(key), Some(String::from_str(value))));
    }
    assert(r@.map_values(|q: RegistryQuery| query_view(q)) =~= base.map_values(|q: RegistryQuery| query_view(q)) + users.map_values(
        |e: (Seq<char>, Seq<char>)| (false, e.0, Some(e.1)),
    ));
    r
}

/// A path read from the registry, tidied: trimmed, without surrounding quotes, with `\`s.
pub open spec fn registry_path_text(value: Seq<char>) -> Seq<char> {
    crate::paths::backslashed(crate::task::trim_quotes(trim(value)))
}

pub fn registry_value_path(value: &str) -> (r: String)
    ensures
        r@ == registry_path_text(value@),
{
    let trimmed = string_of(&crate::text::trim_chars(&chars_of(value)));
    let unquoted = crate::task::trim_quotes_exec(trimmed.as_str());
    crate::paths::with_backslashes(unquoted.as_str())
}

/// A place where an app was seen: its catalog entry, the path to suggest, and the files on disk
/// that the path stands for (each copy, when it holds a `*`).
pub struct Candidate {
    pub index: usize,
    pub path: String,
    pub copies: Vec<String>,
}

pub open spec fn candidate_view(c: Candidate) -> (usize, Seq<char>) {
    (c.index, c.path@)
}

pub open spec fn candidate_views(s: Seq<Candidate>) -> Seq<(usize, Seq<char>)> {
    s.map_values(|c: Candidate| candidate_view(c))
}

/// The elements of `s` whose pick is true, in order.
pub open spec fn picked(s: Seq<(usize, Seq<char>)>, picks: Seq<bool>) -> Seq<(usize, Seq<char>)>
    decreases s.len(),
{
    if s.len() == 0 || picks.len() == 0 {
        seq![]
    } else {
        let rest = picked(s.drop_last(), picks.drop_last());
        if picks.last() {
            rest.push(s.last())
        } else {
            rest
        }
    }
}

/// Whether an element belongs to catalog entry `g`.
pub open spec fn of_entry(g: int) -> spec_fn((usize, Seq<char>)) -> bool {
    |e: (usize, Seq<char>)| e.0 == g
}

/// The elements of `s` grouped by catalog entry, for the entries before `n`: first those of entry
/// 0, then those of entry 1, and so on, each group in the order of `s`.
pub open spec fn grouped(s: Seq<(usize, Seq<char>)>, n: int) -> Seq<(usize, Seq<char>)>
    decreases n,
{
    if n <= 0 {
        seq![]
    } else {
        grouped(s, n - 1) + s.filter(of_entry(n - 1))
    }
}

/// A found app as its name, category and path.
pub open spec fn found_view(f: Found) -> (Seq<char>, Category, Seq<char>) {
    (f.name@, f.category, f.path@)
}

/// What an element `(entry, path)` is shown as.
pub open spec fn entry_found(e: (usize, Seq<char>)) -> (Seq<char>, Category, Seq<char>) {
    (catalog_entry(e.0 as int).0, catalog_entry(e.0 as int).1, e.1)
}

/// The catalog is listed by category: an entry's category comes no earlier than those before it.
pub proof fn lemma_catalog_in_category_order(i: int, j: int)
    requires
        0 <= i <= j < catalog_len(),
    ensures
        category_rank(catalog_entry(i).1) <= category_rank(catalog_entry(j).1),
{
    assert(category_rank(catalog_entry(i).1) == if i < 8 {
        0int
    } else if i < 20 {
        1int
    } else if i < 26 {
        2int
    } else {
        3int
    });
    assert(category_rank(catalog_entry(j).1) == if j < 8 {
        0int
    } else if j < 20 {
        1int
    } else if j < 26 {
        2int
    } else {
        3int
    });
}

/// Grouping puts the entries in order: an element comes no later than those of later entries.
pub proof fn lemma_grouped_in_entry_order(s: Seq<(usize, Seq<char>)>, n: int, i: int, j: int)
    requires
        0 <= i <= j < grouped(s, n).len(),
    ensures
        grouped(s, n)[i].0 <= grouped(s, n)[j].0,
        grouped(s, n)[j].0 < n,
    decreases n,
{
    if n > 0 {
        let prev = grouped(s, n - 1);
        let last = s.filter(of_entry(n - 1));
        assert(grouped(s, n) == prev + last);
        if j < prev.len() {
            lemma_grouped_in_entry_order(s, n - 1, i, j);
        } else {
            assert(last.contains(grouped(s, n)[j])) by {
                assert(last[j - prev.len()] == grouped(s, n)[j]);
            }
            broadcast use vstd::seq_lib::group_filter_ensures;
            if i < prev.len() {
                lemma_grouped_in_entry_order(s, n - 1, i, i);
            } else {
                assert(last.contains(grouped(s, n)[i])) by {
                    assert(last[i - prev.len()] == grouped(s, n)[i]);
                }
            }
        }
    }
}

/// The paths kept among the first `k` candidates.
pub open spec fn kept_texts(cv: Seq<(usize, Seq<char>)>, picks: Seq<bool>, k: int) -> Seq<Seq<char>> {
    picked(cv.take(k), picks.take(k)).map_values(|e: (usize, Seq<char>)| e.1)
}

/// The apps found, from the places where they were seen (in the order of looking: install
/// folders and the registry entry by entry, then running programs). `existing` is the current
/// block list.
///
/// A place is kept unless a place kept before it already covers it (the first always is); what
/// is kept is listed by catalog entry, which lists it by category, each entry's places in the
/// order they were seen. An app is marked as already added only when there is a block list.
pub fn scan(existing: &[String], candidates: &[Candidate]) -> (r: Vec<Found>)
    requires
        forall|k: int| 0 <= k < candidates@.len() ==> #[trigger] candidates@[k].index < catalog_len(),
    ensures
        exists|picks: Seq<bool>|
            #![trigger picked(candidate_views(candidates@), picks)]
            picks.len() == candidates@.len() && (candidates@.len() > 0 ==> picks[0]) && r@.map_values(
                |f: Found| found_view(f),
            ) == grouped(
                picked(candidate_views(candidates@), picks),
                catalog_len(),
            ).map_values(|e: (usize, Seq<char>)| entry_found(e)) && forall|k: int|
                0 <= k < picks.len() ==> may_cover(
                    kept_texts(candidate_views(candidates@), picks, k),
                    candidates@[k].path@,
                    !#[trigger] picks[k],
                ),
        forall|i: int, j: int|
            0 <= i <= j < r@.len() ==> category_rank(#[trigger] r@[i].category) <= category_rank(
                #[trigger] r@[j].category,
            ),
        forall|i: int| 0 <= i < r@.len() && #[trigger] r@[i].already_added ==> existing@.len() > 0,
        forall|i: int|
            0 <= i < r@.len() ==> flag_possible(
                texts(existing@),
                candidates@,
                (#[trigger] r@[i]).path@,
                r@[i].already_added,
            ),
{
    let known = catalog();
    let ghost cv = candidate_views(candidates@);
    let mut found: Vec<(usize, String)> = Vec::new();
    let mut flags: Vec<bool> = Vec::new();
    let ghost mut picks: Seq<bool> = seq![];
    for k in 0..candidates.len()
        invariant
            cv == candidate_views(candidates@),
            forall|t: int| 0 <= t < candidates@.len() ==> #[trigger] candidates@[t].index < catalog_len(),
            picks.len() == k,
            k > 0 ==> picks[0],
            found@.map_values(|e: (usize, String)| (e.0, e.1@)) == picked(cv.take(k as int), picks),
            flags@.len() == found@.len(),
            forall|t: int| 0 <= t < flags@.len() && #[trigger] flags@[t] ==> existing@.len() > 0,
            forall|t: int| 0 <= t < found@.len() ==> #[trigger] found@[t].0 < catalog_len(),
            forall|t: int|
                0 <= t < flags@.len() ==> flag_possible(
                    texts(existing@),
                    candidates@,
                    (#[trigger] found@[t]).1@,
                    flags@[t],
                ),
            forall|t: int|
                0 <= t < k ==> may_cover(
                    kept_texts(cv, picks, t),
                    candidates@[t].path@,
                    !#[trigger] picks[t],
                ),
    {
        let c = &candidates[k];
        let before = found.len();
        let ghost old_found = found@;
        let ghost old_picks = picks;
        add_candidate(&mut found, c.index, c.path.clone());
        assert(cv.take(k + 1).drop_last() == cv.take(k as int));
        assert(cv.take(k + 1).last() == cv[k as int]);
        if found.len() > before {
            let added = is_already_added(existing, c.path.as_str(), c.copies.as_slice());
            let ghost old_flags = flags@;
            flags.push(added);
            proof {
                assert(found@ == old_found.push((c.index, c.path)));
                assert forall|t: int| 0 <= t < flags@.len() implies flag_possible(
                    texts(existing@),
                    candidates@,
                    (#[trigger] found@[t]).1@,
                    flags@[t],
                ) by {
                    if t < old_flags.len() {
                        assert(found@[t] == old_found[t]);
                        assert(flags@[t] == old_flags[t]);
                    } else {
                        assert(candidates@[k as int] == *c);
                        assert(flag_possible(texts(existing@), candidates@, c.path@, added));
                    }
                }
            }
            proof {
                picks = picks.push(true);
                assert(found@ == old_found.push((c.index, c.path)));
                assert(found@.map_values(|e: (usize, String)| (e.0, e.1@)) =~= old_found.map_values(
                    |e: (usize, String)| (e.0, e.1@),
                ).push(cv[k as int]));
            }
        } else {
            proof {
                picks = picks.push(false);
                assert(found@ == old_found);
            }
        }
        proof {
            assert(picks.drop_last() =~= old_picks);
            let ghost cc = choose|cc: bool|
                #[trigger] may_cover(found_texts(old_found), candidates@[k as int].path@, cc) && if cc {
                    found@ == old_found
                } else {
                    found@ == old_found.push((candidates@[k as int].index, candidates@[k as int].path))
                };
            assert(found_texts(old_found) =~= kept_texts(cv, old_picks, k as int)) by {
                assert(old_found.map_values(|e: (usize, String)| (e.0, e.1@)) == picked(
                    cv.take(k as int),
                    old_picks,
                ));
                assert(old_picks.take(k as int) =~= old_picks);
                assert forall|t: int| 0 <= t < old_found.len() implies found_texts(old_found)[t]
                    == kept_texts(cv, old_picks, k as int)[t] by {
                    assert(old_found.map_values(|e: (usize, String)| (e.0, e.1@))[t] == (
                        old_found[t].0,
                        old_found[t].1@,
                    ));
                }
            }
            assert(picks[k as int] == !cc) by {
                if cc {
                    assert(found@.len() == before);
                } else {
                    assert(found@.len() == before + 1);
                }
            }
            assert(picks.take(k as int) =~= old_picks);
            assert forall|t: int|
                0 <= t < k + 1 implies may_cover(
                    kept_texts(cv, picks, t),
                    candidates@[t].path@,
                    !#[trigger] picks[t],
                ) by {
                if t < k {
                    assert(picks.take(t) =~= old_picks.take(t));
                    assert(picks[t] == old_picks[t]);
                    assert(kept_texts(cv, picks, t) == kept_texts(cv, old_picks, t));
                } else {
                    assert(picks.take(t) =~= old_picks.take(t));
                    assert(kept_texts(cv, picks, t) == kept_texts(cv, old_picks, t));
                    assert(kept_texts(cv, picks, t) == found_texts(old_found));
                }
            }
        }
    }
    assert(cv.take(candidates@.len() as int) == cv);
    let ghost kept = found@.map_values(|e: (usize, String)| (e.0, e.1@));
    let mut r: Vec<Found> = Vec::new();
    for g in 0..known.len()
        invariant
            known@.len() == catalog_len(),
            forall|t: int| 0 <= t < catalog_len() ==> (#[trigger] known@[t])@ == catalog_entry(t),
            kept == found@.map_values(|e: (usize, String)| (e.0, e.1@)),
            flags@.len() == found@.len(),
            forall|t: int| 0 <= t < flags@.len() && #[trigger] flags@[t] ==> existing@.len() > 0,
            r@.map_values(|f: Found| found_view(f)) == grouped(kept, g as int).map_values(
                |e: (usize, Seq<char>)| entry_found(e),
            ),
            forall|t: int| 0 <= t < r@.len() && #[trigger] r@[t].already_added ==> existing@.len() > 0,
            forall|t: int|
                0 <= t < flags@.len() ==> flag_possible(
                    texts(existing@),
                    candidates@,
                    (#[trigger] found@[t]).1@,
                    flags@[t],
                ),
            forall|t: int|
                0 <= t < r@.len() ==> flag_possible(
                    texts(existing@),
                    candidates@,
                    (#[trigger] r@[t]).path@,
                    r@[t].already_added,
                ),
    {
        let ghost start = r@;
        let ghost group_start = grouped(kept, g as int);
        for j in 0..found.len()
            invariant
                known@.len() == catalog_len(),
                g < catalog_len(),
                forall|t: int| 0 <= t < catalog_len() ==> (#[trigger] known@[t])@ == catalog_entry(t),
                kept == found@.map_values(|e: (usize, String)| (e.0, e.1@)),
                flags@.len() == found@.len(),
                forall|t: int| 0 <= t < flags@.len() && #[trigger] flags@[t] ==> existing@.len() > 0,
                r@.map_values(|f: Found| found_view(f)) == (group_start + kept.take(j as int).filter(of_entry(g as int))).map_values(
                    |e: (usize, Seq<char>)| entry_found(e),
                ),
                forall|t: int| 0 <= t < r@.len() && #[trigger] r@[t].already_added ==> existing@.len() > 0,
                forall|t: int|
                    0 <= t < flags@.len() ==> flag_possible(
                        texts(existing@),
                        candidates@,
                        (#[trigger] found@[t]).1@,
                        flags@[t],
                    ),
                forall|t: int|
                    0 <= t < r@.len() ==> flag_possible(
                        texts(existing@),
                        candidates@,
                        (#[trigger] r@[t]).path@,
                        r@[t].already_added,
                    ),
        {
            let ghost before = r@;
            proof {
                assert(kept.take(j + 1) == kept.take(j as int).push(kept[j as int]));
                kept.take(j as int).lemma_filter_push(kept[j as int], of_entry(g as int));
            }
            if found[j].0 == g {
                let entry = &known[g];
                assert(entry@ == catalog_entry(g as int));
                let f = Found {
                    name: entry.name,
                    category: entry.category,
                    path: found[j].1.clone(),
                    already_added: flags[j],
                };
                r.push(f);
                proof {
                    assert forall|t: int| 0 <= t < r@.len() implies flag_possible(
                        texts(existing@),
                        candidates@,
                        (#[trigger] r@[t]).path@,
                        r@[t].already_added,
                    ) by {
                        if t < before.len() {
                            assert(r@[t] == before[t]);
                        } else {
                            assert(r@[t] == f);
                            assert(f.path@ == found@[j as int].1@);
                            assert(f.already_added == flags@[j as int]);
                        }
                    }
                }
                proof {
                    assert(kept[j as int] == (found@[j as int].0, found@[j as int].1@));
                    assert(of_entry(g as int)(kept[j as int]));
                    let a = group_start + kept.take(j as int).filter(of_entry(g as int));
                    assert(group_start + kept.take(j + 1).filter(of_entry(g as int)) =~= a.push(kept[j as int]));
                    assert(found_view(f) == entry_found(kept[j as int]));
                    assert(r@ == before.push(f));
                    assert(r@.map_values(|f: Found| found_view(f)) =~= before.map_values(|f: Found| found_view(f)).push(found_view(f)));
                    assert(a.push(kept[j as int]).map_values(|e: (usize, Seq<char>)| entry_found(e)) =~= a.map_values(
                        |e: (usize, Seq<char>)| entry_found(e),
                    ).push(entry_found(kept[j as int])));
                    assert(r@.map_values(|f: Found| found_view(f)) =~= (group_start + kept.take(j + 1).filter(of_entry(g as int))).map_values(
                        |e: (usize, Seq<char>)| entry_found(e),
                    ));
                }
            } else {
                assert(kept[j as int] == (found@[j as int].0, found@[j as int].1@));
                assert(!of_entry(g as int)(kept[j as int]));
            }
        }
        assert(kept.take(found@.len() as int) == kept);
        assert(grouped(kept, g + 1) == group_start + kept.filter(of_entry(g as int)));
    }
    proof {
        assert(kept == picked(cv, picks));
        assert(picks.len() == candidates@.len() && (candidates@.len() > 0 ==> picks[0]) && r@.map_values(
            |f: Found| found_view(f),
        ) == grouped(picked(cv, picks), catalog_len()).map_values(|e: (usize, Seq<char>)| entry_found(e)));
        let ghost e = grouped(kept, catalog_len());
        assert forall|i: int, j: int| 0 <= i <= j < r@.len() implies category_rank(#[trigger] r@[i].category) <= category_rank(#[trigger] r@[j].category) by {
            assert(r@.map_values(|f: Found| found_view(f))[i] == entry_found(e[i]));
            assert(r@.map_values(|f: Found| found_view(f))[j] == entry_found(e[j]));
            lemma_grouped_in_entry_order(kept, catalog_len(), i, j);
            lemma_grouped_in_entry_order(kept, catalog_len(), j, j);
            lemma_catalog_in_category_order(e[i].0 as int, e[j].0 as int);
        }
    }
    r
}

/// Whether row `i` can be ticked in its category group: it is in `category` and not yet added.
pub open spec fn open_in(found: Seq<Found>, category: Category, i: int) -> bool {
    found[i].category == category && !found[i].already_added
}

/// The "Select all" / "Clear" button of a category: when every open row of the category is
/// ticked, it clears them; otherwise it ticks them all. Other rows keep their ticks.
pub fn toggle_category(found: &[Found], checked: &mut Vec<bool>, category: Category)
    requires
        old(checked)@.len() == found@.len(),
    ensures
        final(checked)@.len() == old(checked)@.len(),
        ({
            let all = forall|i: int| 0 <= i < found@.len() && open_in(found@, category, i) ==> old(checked)@[i];
            forall|i: int|
                0 <= i < found@.len() ==> #[trigger] final(checked)@[i] == if open_in(found@, category, i) {
                    !all
                } else {
                    old(checked)@[i]
                }
        }),
{
    let n = found.len();
    let mut all = true;
    for i in 0..n
        invariant
            n == found@.len(),
            checked@.len() == n,
            all == forall|j: int| 0 <= j < i && open_in(found@, category, j) ==> checked@[j],
    {
        if found[i].category == category && !found[i].already_added && !checked[i] {
            all = false;
        }
    }
    let ghost before = checked@;
    for i in 0..n
        invariant
            n == found@.len(),
            checked@.len() == n,
            before.len() == n,
            all == forall|j: int| 0 <= j < n && open_in(found@, category, j) ==> before[j],
            forall|j: int| 0 <= j < i ==> #[trigger] checked@[j] == if open_in(found@, category, j) {
                !all
            } else {
                before[j]
            },
            forall|j: int| i <= j < n ==> #[trigger] checked@[j] == before[j],
    {
        if found[i].category == category && !found[i].already_added {
            checked.set(i, !all);
        }
    }
}

/// The label of the button that adds the ticked apps.
pub fn add_label(count: usize) -> (r: String)
    ensures
        r@ == if count <= 1 {
            "Add to block list"@
        } else {
            "Add "@ + crate::text::decimal(count as nat) + " apps"@
        },
{
    if count <= 1 {
        String::from_str("Add to block list")
    } else {
        let mut s = String::from_str("Add ");
        crate::text::push_decimal(&mut s, count as u64);
        s.append(" apps");
        s
    }
}

/// The first `k` of `paths`, keeping those whose `keep` is set, in order.
pub open spec fn kept_upto(paths: Seq<Seq<char>>, keep: Seq<bool>, k: nat) -> Seq<Seq<char>>
    decreases k,
{
    if k == 0 {
        Seq::empty()
    } else {
        let before = kept_upto(paths, keep, (k - 1) as nat);
        if keep[k - 1] {
            before.push(paths[k - 1])
        } else {
            before
        }
    }
}

/// Deciding about one more path leaves what was kept of the earlier ones as it was.
pub proof fn lemma_kept_upto_extend(paths: Seq<Seq<char>>, keep: Seq<bool>, b: bool, k: nat)
    requires
        k <= keep.len(),
    ensures
        kept_upto(paths, keep.push(b), k) == kept_upto(paths, keep, k),
    decreases k,
{
    if k > 0 {
        lemma_kept_upto_extend(paths, keep, b, (k - 1) as nat);
    }
}

/// Whether `path` may be left out as one that `list` already has: paths name the same file only
/// when both are not blank, so some entry of the list is not blank, and neither is `path`.
pub open spec fn may_be_listed(list: Seq<Seq<char>>, path: Seq<char>) -> bool {
    &&& trim(path).len() > 0
    &&& exists|i: int| 0 <= i < list.len() && trim(#[trigger] list[i]).len() > 0
}

/// The paths of the apps found.
pub open spec fn found_paths(found: Seq<Found>) -> Seq<Seq<char>> {
    found.map_values(|f: Found| f.path@)
}

/// Whether the list `after` is `before` with the candidate `paths` appended in order, each
/// unless it is not `eligible` or, being eligible, it may be one that the list already had when
/// its turn came.
pub open spec fn appended_unless_listed(
    before: Seq<Seq<char>>,
    after: Seq<Seq<char>>,
    paths: Seq<Seq<char>>,
    eligible: Seq<bool>,
) -> bool {
    exists|keep: Seq<bool>|
        {
            &&& keep.len() == paths.len()
            &&& after == before + kept_upto(paths, keep, paths.len())
            &&& forall|k: int| 0 <= k < paths.len() && #[trigger] keep[k] ==> eligible[k]
            &&& forall|k: int|
                0 <= k < paths.len() && eligible[k] && !#[trigger] keep[k] ==> may_be_listed(
                    before + kept_upto(paths, keep, k as nat),
                    paths[k],
                )
        }
}

/// Whether `path` is the path of a ticked app.
pub open spec fn is_ticked_path(found: Seq<Found>, checked: Seq<bool>, path: Seq<char>) -> bool {
    exists|m: int| #![trigger found[m]] 0 <= m < found.len() && checked[m] && found[m].path@ == path
}

/// Adds each ticked app to the block list unless the list already has its path, and says how
/// many were added.
pub fn add_checked(executables: &mut Vec<String>, found: &[Found], checked: &[bool]) -> (added: usize)
    requires
        checked@.len() == found@.len(),
    ensures
        final(executables)@.len() == old(executables)@.len() + added,
        forall|i: int| 0 <= i < old(executables)@.len() ==> final(executables)@[i] == old(executables)@[i],
        forall|i: int|
            old(executables)@.len() <= i < final(executables)@.len() ==> is_ticked_path(
                found@,
                checked@,
                #[trigger] final(executables)@[i]@,
            ),
        added <= found@.len(),
        appended_unless_listed(
            texts_of(old(executables)@),
            texts_of(final(executables)@),
            found_paths(found@),
            checked@,
        ),
{
    let ghost start = executables@;
    let ghost paths = found_paths(found@);
    let ghost mut keep: Seq<bool> = Seq::empty();
    let mut added: usize = 0;
    for k in 0..found.len()
        invariant
            checked@.len() == found@.len(),
            paths == found_paths(found@),
            executables@.len() == start.len() + added,
            added <= k,
            keep.len() == k,
            texts_of(executables@) == texts_of(start) + kept_upto(paths, keep, k as nat),
            forall|j: int| 0 <= j < k && #[trigger] keep[j] ==> checked@[j],
            forall|j: int|
                0 <= j < k && checked@[j] && !#[trigger] keep[j] ==> may_be_listed(
                    texts_of(start) + kept_upto(paths, keep, j as nat),
                    paths[j],
                ),
            forall|i: int| 0 <= i < start.len() ==> executables@[i] == start[i],
            forall|i: int|
                start.len() <= i < executables@.len() ==> is_ticked_path(
                    found@,
                    checked@,
                    #[trigger] executables@[i]@,
                ),
    {
        let mut kept_now = false;
        if checked[k] {
            let mut present = false;
            for j in 0..executables.len()
                invariant
                    k < found@.len(),
                    present ==> may_be_listed(texts_of(executables@), found@[k as int].path@),
            {
                if crate::paths::same_path(executables[j].as_str(), found[k].path.as_str()) {
                    assert(texts_of(executables@)[j as int] == executables@[j as int]@);
                    present = true;
                }
            }
            if !present {
                let p = found[k].path.clone();
                let ghost before = executables@;
                executables.push(p);
                proof {
                    assert(is_ticked_path(found@, checked@, found@[k as int].path@));
                    assert forall|i: int|
                        start.len() <= i < executables@.len() implies is_ticked_path(
                            found@,
                            checked@,
                            #[trigger] executables@[i]@,
                        ) by {
                        if i < before.len() {
                            assert(executables@[i] == before[i]);
                        } else {
                            assert(executables@[i]@ == found@[k as int].path@);
                        }
                    }
                    assert(texts_of(executables@) =~= texts_of(before).push(found@[k as int].path@));
                }
                added = added + 1;
                kept_now = true;
            }
        }
        proof {
            let nk = keep.push(kept_now);
            assert forall|j: int| 0 <= j <= k implies #[trigger] kept_upto(paths, nk, j as nat)
                == kept_upto(paths, keep, j as nat) by {
                lemma_kept_upto_extend(paths, keep, kept_now, j as nat);
            }
            assert(paths[k as int] == found@[k as int].path@);
            assert(nk[k as int] == kept_now);
            lemma_kept_upto_extend(paths, keep, kept_now, k as nat);
            assert(kept_upto(paths, nk, (k + 1) as nat) == if kept_now {
                kept_upto(paths, keep, k as nat).push(paths[k as int])
            } else {
                kept_upto(paths, keep, k as nat)
            });
            assert forall|j: int| 0 <= j < k + 1 && #[trigger] nk[j] implies checked@[j] by {
                if j < k {
                    assert(nk[j] == keep[j]);
                }
            }
            assert forall|j: int|
                0 <= j < k + 1 && checked@[j] && !#[trigger] nk[j] implies may_be_listed(
                    texts_of(start) + kept_upto(paths, nk, j as nat),
                    paths[j],
                ) by {
                assert(kept_upto(paths, nk, j as nat) == kept_upto(paths, keep, j as nat));
                if j < k {
                    assert(nk[j] == keep[j]);
                }
            }
            keep = nk;
        }
    }
    proof {
        assert(keep.len() == paths.len());
    }
    added
}

/// What adding apps says.
pub fn added_message(added: usize) -> (r: String)
    ensures
        r@ == if added == 1 {
            "1 app added. Save to start blocking it."@
        } else {
            crate::text::decimal(added as nat) + " apps added. Save to start blocking them."@
        },
{
    if added == 1 {
        String::from_str("1 app added. Save to start blocking it.")
    } else {
        let mut s = String::new();
        crate::text::push_decimal(&mut s, added as u64);
        s.append(" apps added. Save to start blocking them.");
        s
    }
}

} // verus!
