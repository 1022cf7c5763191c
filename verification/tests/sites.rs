use amberbeam_core::config::AuthKind;
use amberbeam_core::endpoint::Protocol;
use amberbeam_core::import::{native_places, scan_roots, Source, SCAN_DEPTH};
use amberbeam_core::sites::{Filed, Site, Sites};

fn site(name: &str) -> Site {
    Site {
        id: format!("id-{name}"),
        name: name.into(),
        protocol: Protocol::Sftp,
        host: "example.org".into(),
        port: 22,
        user: "dennis".into(),
        auth: AuthKind::Password,
        key_path: None,
        remote_path: None,
        remember_path: false,
        local_path: None,
        concurrency: 8,
        retries: None,
        temporary_name: None,
        encryption: None,
        passive: None,
        latin1: None,
        keep_alive: None,
        remember_password: false,
        wastebasket: None,
        count_before_delete: true,
        mcp_see: false,
        mcp_upload: false,
        mcp_download: false,
        mcp_create: false,
        mcp_rename: false,
        mcp_remove: false,
        excludes: Vec::new(),
        colour: None,
    }
}

fn filed(folder: &str, name: &str) -> Filed {
    Filed { folder: folder.into(), site: site(name) }
}

#[test]
fn the_list_goes_by_folder_then_name_without_minding_case() {
    let found = vec![
        filed("kunden", "zeta"),
        filed("", "Web"),
        filed("Kunden", "Alpha"),
        filed("", "archiv"),
        filed("Intern", "b"),
    ];
    let ordered = Sites::in_order(found);
    let names: Vec<(&str, &str)> =
        ordered.iter().map(|f| (f.folder.as_str(), f.site.name.as_str())).collect();
    assert_eq!(
        names,
        vec![("", "archiv"), ("", "Web"), ("Intern", "b"), ("Kunden", "Alpha"), ("kunden", "zeta")]
    );
}

#[test]
fn entries_that_tie_keep_the_order_they_were_found_in() {
    let ordered = Sites::in_order(vec![filed("A", "x"), filed("a", "X"), filed("A", "X")]);
    let folders: Vec<&str> = ordered.iter().map(|f| f.folder.as_str()).collect();
    assert_eq!(folders, vec!["A", "a", "A"]);
    assert_eq!(ordered[1].site.name, "X");
}

#[test]
fn each_program_is_looked_for_where_it_keeps_its_list() {
    let places = native_places("/home/dennis");
    assert_eq!(places.len(), 5);
    assert_eq!(places[0], (Source::SshConfig, "/home/dennis/.ssh/config".to_string()));
    assert_eq!(places[1], (Source::FileZilla, "/home/dennis/.config/filezilla/sitemanager.xml".to_string()));
    assert_eq!(places[2], (Source::FileZilla, "/home/dennis/AppData/Roaming/FileZilla/sitemanager.xml".to_string()));
    assert_eq!(places[3], (Source::WinScp, "/home/dennis/AppData/Roaming/WinSCP.ini".to_string()));
    assert_eq!(places[4], (Source::WcxFtp, "/home/dennis/AppData/Roaming/GHISLER/wcx_ftp.ini".to_string()));
    assert_eq!(scan_roots("/home/dennis/"), vec!["/home/dennis/Downloads", "/home/dennis/Desktop", "/home/dennis/Documents"]);
    assert_eq!(SCAN_DEPTH, 2);
}

#[test]
fn a_folder_is_a_directory_below_the_root_and_an_entry_a_file_in_it() {
    let sites = Sites::at("/home/dennis/.config/amberbeam/sites");
    assert_eq!(sites.folder_path("Kunden/Müller"), "/home/dennis/.config/amberbeam/sites/Kunden/Müller");
    assert_eq!(sites.folder_path("//Kunden//"), "/home/dennis/.config/amberbeam/sites/Kunden");
    assert_eq!(sites.folder_path(""), "/home/dennis/.config/amberbeam/sites");
    assert_eq!(sites.path_for("Kunden", "Web"), "/home/dennis/.config/amberbeam/sites/Kunden/Web.json");
}

#[test]
fn folders_go_in_the_order_of_their_lower_case() {
    let found = vec!["kunden/b".to_string(), "Archiv".to_string(), "Kunden".to_string(), "intern".to_string()];
    assert_eq!(Sites::folders_in_order(found), vec!["Archiv", "intern", "Kunden", "kunden/b"]);
}

#[test]
fn an_entry_is_found_by_its_identifier() {
    let found = vec![filed("", "a"), filed("K", "b"), filed("L", "b")];
    assert_eq!(Sites::position_of(&found, "id-b"), Some(1));
    assert_eq!(Sites::position_of(&found, "id-z"), None);
}
