use amberbeam_core::endpoint::Protocol;
use amberbeam_core::ftp::Encryption;
use amberbeam_core::import::filezilla::{self, safe_path, Server};
use amberbeam_core::import::sites_xml;
use amberbeam_core::import::xml::{from_base64, named_entity, steps_of, walk, Element, Step, XmlEvent};
use amberbeam_core::import::{Found, Source};

#[test]
fn text_lands_on_the_element_it_was_written_in() {
    let steps =
        walk("<Folder expanded=\"1\">Kunden<Server><Host>a.example</Host></Server></Folder>");
    let Step::Open(folder) = &steps[0] else {
        panic!("expected an element")
    };
    assert_eq!(folder.name, "Folder");
    assert_eq!(folder.text, "Kunden");
    assert_eq!(folder.attribute("expanded"), Some("1"));

    let names: Vec<&str> = steps
        .iter()
        .filter_map(|step| match step {
            Step::Open(element) => Some(element.name.as_str()),
            Step::Close(_) => None,
        })
        .collect();
    assert_eq!(names, vec!["Folder", "Server", "Host"]);
}

#[test]
fn an_empty_element_opens_and_closes() {
    let steps = walk("<Server><LocalDir /></Server>");
    assert_eq!(steps.len(), 4);
    assert_eq!(steps[2], Step::Close("LocalDir".into()));
}

#[test]
fn the_five_entities_come_back_as_characters() {
    let steps = walk("<Name>Gr&#246;&#223;e &amp; Ma&#223;</Name>");
    let Step::Open(element) = &steps[0] else {
        panic!("expected an element")
    };
    assert_eq!(element.text, "Größe & Maß");
}

#[test]
fn a_document_that_stops_making_sense_keeps_what_came_before() {
    let steps = walk("<Servers><Server><Host>a.example</Host></Server><Serv");
    assert!(steps
        .iter()
        .any(|step| matches!(step, Step::Open(e) if e.name == "Host")));
}

#[test]
fn base64_comes_back() {
    assert_eq!(
        from_base64("dGFubmVuYmF1bQ==").as_deref(),
        Some("tannenbaum".as_bytes())
    );
    assert_eq!(from_base64("").as_deref(), Some(&[][..]));
    assert_eq!(from_base64("!!!"), None);
}

#[test]
fn base64_passes_over_white_space_and_padding() {
    assert_eq!(from_base64("dGFu\nbmVu YmF1bQ").as_deref(), Some("tannenbaum".as_bytes()));
    assert_eq!(from_base64("QQ==").as_deref(), Some(&b"A"[..]));
}

#[test]
fn the_five_entities_by_name() {
    assert_eq!(named_entity("amp"), Some('&'));
    assert_eq!(named_entity("lt"), Some('<'));
    assert_eq!(named_entity("gt"), Some('>'));
    assert_eq!(named_entity("quot"), Some('"'));
    assert_eq!(named_entity("apos"), Some('\''));
    assert_eq!(named_entity("nbsp"), None);
}

#[test]
fn events_become_steps_with_text_on_the_open_element() {
    let events = vec![
        XmlEvent::Open(false, ("A".to_string(), vec![Some(("k".to_string(), None)), None])),
        XmlEvent::Text("x".to_string()),
        XmlEvent::Open(true, ("B".to_string(), vec![])),
        XmlEvent::Reference("amp".to_string(), Some(None)),
        XmlEvent::Reference("#bad".to_string(), None),
        XmlEvent::Other,
        XmlEvent::Close("A".to_string()),
        XmlEvent::Text("lost".to_string()),
    ];
    let steps = steps_of(&events);
    assert_eq!(steps.len(), 4);
    assert_eq!(
        steps[0],
        Step::Open(Element {
            name: "A".to_string(),
            text: "x&".to_string(),
            attributes: vec![("k".to_string(), String::new())],
        })
    );
    assert_eq!(steps[2], Step::Close("B".to_string()));
    assert_eq!(steps[3], Step::Close("A".to_string()));
}

const FILEZILLA: &str = r#"<?xml version="1.0"?>
<FileZilla3 version="3.66.0" platform="*nix">
  <Servers>
    <Folder expanded="1">Kunden
      <Folder expanded="0">M&#252;ller
        <Server>
          <Host>example.org</Host>
          <Port>2222</Port>
          <Protocol>1</Protocol>
          <User>dennis</User>
          <Pass encoding="base64">dGFubmVuYmF1bQ==</Pass>
          <Logontype>1</Logontype>
          <Name>Webserver</Name>
          <RemoteDir>1 0 3 var 3 www</RemoteDir>
        </Server>
      </Folder>
    </Folder>
    <Server>
      <Host>ftp.example</Host>
      <Protocol>6</Protocol>
      <User>anonymous</User>
      <Logontype>0</Logontype>
      <Name>Offen</Name>
    </Server>
  </Servers>
</FileZilla3>
"#;

fn filezilla_parsed() -> Found {
    filezilla::parse(FILEZILLA, "sitemanager.xml")
}

#[test]
fn a_tree_arrives_as_a_tree() {
    let found = filezilla_parsed();
    assert_eq!(found.source, Source::FileZilla);
    assert_eq!(found.entries.len(), 2);

    let web = &found.entries[0];
    assert_eq!(web.name, "Webserver");
    assert_eq!(web.folder, "Kunden/Müller");
    assert_eq!(web.protocol, Protocol::Sftp);
    assert_eq!(web.port, 2222);
    assert_eq!(web.remote_path.as_deref(), Some("/var/www"));
    assert_eq!(web.password.as_deref(), Some("tannenbaum"));

    assert_eq!(found.entries[1].folder, "");
    assert_eq!(found.entries[1].protocol, Protocol::Ftp);
}

#[test]
fn a_master_password_is_said_out_loud() {
    let text = r#"<FileZilla3><Servers><Server>
        <Host>example.org</Host><Protocol>1</Protocol><User>dennis</User>
        <Pass encoding="crypt">AAAA</Pass><Logontype>1</Logontype>
        </Server></Servers></FileZilla3>"#;
    let found = filezilla::parse(text, "sitemanager.xml");

    assert!(found
        .warnings
        .contains(&"import.warning.master-password".to_string()));
    assert_eq!(found.entries.len(), 1, "the server is still worth having");
    assert!(!found.entries[0].has_password);
}

#[test]
fn the_protocol_numbers_are_filezillas_own() {
    let one = |protocol: i32| {
        let text = format!(
            "<FileZilla3><Servers><Server><Host>a.example</Host>\
             <Protocol>{protocol}</Protocol><Logontype>1</Logontype></Server></Servers></FileZilla3>"
        );
        filezilla::parse(&text, "x").entries.pop()
    };

    assert_eq!(one(0).unwrap().encryption, Some(Encryption::Explicit));
    assert_eq!(one(1).unwrap().protocol, Protocol::Sftp);
    assert_eq!(one(3).unwrap().encryption, Some(Encryption::Implicit));
    assert_eq!(one(4).unwrap().encryption, Some(Encryption::Explicit));
    assert_eq!(one(6).unwrap().protocol, Protocol::Ftp);
    assert!(one(9).is_none());
}

#[test]
fn a_directory_name_with_a_space_survives_its_own_notation() {
    assert_eq!(
        safe_path("1 0 3 var 8 www neue"),
        Some("/var/www neue".into())
    );
    assert_eq!(safe_path("1 0 3 var 3 www"), Some("/var/www".into()));
    assert_eq!(safe_path(""), None);
    assert_eq!(safe_path("nonsense"), None);
}

#[test]
fn a_prefix_and_a_segment_too_long_for_the_text() {
    assert_eq!(safe_path("1 4 C:\\\\ 3 var"), Some("/var".into()));
    assert_eq!(safe_path("1 0 9 var"), None);
    assert_eq!(safe_path("1 0"), None);
}

#[test]
fn a_server_takes_in_its_fields() {
    let mut s = Server::blank();
    s.set("Host", "h.example", None);
    s.set("Port", "70000", None);
    assert_eq!(s.port, None);
    s.set("Port", "21", None);
    s.set("Protocol", "-3", None);
    s.set("Logontype", "x", None);
    s.set("Keyfile", "", None);
    s.set("Pass", "plain", None);
    s.set("Unknown", "ignored", None);
    assert_eq!(s.host, "h.example");
    assert_eq!(s.port, Some(21));
    assert_eq!(s.protocol, -3);
    assert_eq!(s.logon_type, 1);
    assert_eq!(s.key_file, None);
    assert_eq!(s.password.as_deref(), Some("plain"));
    s.set("Pass", "AAAA", Some("crypt"));
    assert!(s.master_password);
}

const SITES: &str = r#"<?xml version="1.0" encoding="windows-1252"?>
<!--1-8-2012 14:17:43-->
<SITES VERSION="1.2">
  <SITE NAME="Kunde M&#252;ller">
    <GROUP>\Kunden\M&#252;ller\</GROUP>
    <PROTOCOL>FTP</PROTOCOL>
    <ADDRESS>example.org</ADDRESS>
    <PORT>2121</PORT>
    <USERNAME>dennis</USERNAME>
    <PASSWORD>tannenbaum</PASSWORD>
    <REMOTEPATH>/public_html/</REMOTEPATH>
    <PASSIVE>DEFAULT</PASSIVE>
    <SSL>AUTH TLS</SSL>
  </SITE>
  <SITE NAME="Ohne Port">
    <PROTOCOL>FTP</PROTOCOL>
    <ADDRESS>zwei.example</ADDRESS>
    <USERNAME>jemand</USERNAME>
    <SSL>NONE</SSL>
  </SITE>
</SITES>
"#;

fn sites_parsed() -> Found {
    sites_xml::parse(SITES, "sites.ftp")
}

#[test]
fn a_group_becomes_a_folder() {
    let found = sites_parsed();
    assert_eq!(found.source, Source::SitesXml);
    assert_eq!(found.entries.len(), 2);

    let first = &found.entries[0];
    assert_eq!(first.name, "Kunde Müller");
    assert_eq!(first.folder, "Kunden/Müller");
    assert_eq!(first.host, "example.org");
    assert_eq!(first.port, 2121);
    assert_eq!(first.remote_path.as_deref(), Some("/public_html/"));
    assert_eq!(first.protocol, Protocol::Ftps);
    assert_eq!(first.encryption, Some(Encryption::Explicit));

    assert_eq!(found.entries[1].folder, "");
    assert_eq!(found.entries[1].port, 21);
    assert_eq!(found.entries[1].protocol, Protocol::Ftp);
}

#[test]
fn a_password_in_the_clear_is_read_and_said_out_loud() {
    let found = sites_parsed();
    assert_eq!(found.entries[0].password.as_deref(), Some("tannenbaum"));
    assert!(found
        .warnings
        .contains(&"import.warning.cleartext".to_string()));
}

#[test]
fn a_file_with_nothing_in_the_clear_says_nothing() {
    let text = r#"<SITES><SITE NAME="A"><ADDRESS>a.example</ADDRESS></SITE></SITES>"#;
    let found = sites_xml::parse(text, "x.ftp");
    assert_eq!(found.entries.len(), 1);
    assert!(found.warnings.is_empty());
}

#[test]
fn an_sftp_site_and_an_implicit_one() {
    let text = r#"<SITES><SITE NAME="S"><ADDRESS>s.example</ADDRESS><PROTOCOL>sftp</PROTOCOL></SITE><site><address>i.example</address><ssl>implicit</ssl></site></SITES>"#;
    let found = sites_xml::parse(text, "x.ftp");
    assert_eq!(found.entries.len(), 2);
    assert_eq!(found.entries[0].protocol, Protocol::Sftp);
    assert_eq!(found.entries[0].port, 22);
    assert_eq!(found.entries[1].name, "i.example");
    assert_eq!(found.entries[1].encryption, Some(Encryption::Implicit));
}
