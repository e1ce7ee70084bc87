use zen_app_manager::desktop::{
    desktop_file_content, extract_value, parse_desktop_entry, strip_env_prefixes, toggle_content,
};
use zen_app_manager::folder::{batch_file_content, parse_folder_entry, toggle_path};
use zen_app_manager::startup::hyphenate;
use zen_app_manager::{
    create_app, get_startup_apps, is_startup_file, new_entry_file, toggle_app, Platform,
    StartupApp, StorageFile, ToggleStep,
};

fn file(name: &str, path: &str, content: Option<&str>) -> StorageFile {
    StorageFile {
        file_name: name.to_string(),
        path: path.to_string(),
        content: content.map(|c| c.to_string()),
    }
}

fn discover_one(name: &str, content: &str) -> StartupApp {
    let files = vec![file(name, &format!("/home/u/.config/autostart/{}", name), Some(content))];
    let mut apps = get_startup_apps(Platform::Linux, &files);
    assert_eq!(apps.len(), 1);
    apps.remove(0)
}

#[test]
fn round_trip_create_then_discover() {
    let created = create_app(Platform::Linux, "Foo Bar", "/bin/foo", "d").unwrap();
    assert_eq!(created.file_name, "foo-bar.desktop");
    let app = discover_one(&created.file_name, &created.content);
    assert_eq!(app.name, "Foo Bar");
    assert_eq!(app.command, "/bin/foo");
    assert!(app.enabled);
    assert_eq!(app.id, "foo-bar.desktop");
    assert_eq!(app.path, "/home/u/.config/autostart/foo-bar.desktop");
}

#[test]
fn created_desktop_file_content() {
    let created = create_app(Platform::Linux, "Foo Bar", "/bin/foo", "d").unwrap();
    assert_eq!(
        created.content,
        "[Desktop Entry]\nType=Application\nName=Foo Bar\nExec=/bin/foo\nComment=d\nHidden=false\nX-GNOME-Autostart-enabled=true\n"
    );
    assert_eq!(desktop_file_content("Foo Bar", "/bin/foo", "d"), created.content);
}

#[test]
fn toggle_enable_twice_linux() {
    let content = "[Desktop Entry]\nName=A\nExec=a\nHidden=true\n";
    assert!(matches!(toggle_app(Platform::Linux, "/x/a.desktop", true), Ok(ToggleStep::Rewrite)));
    let once = toggle_content(content, true);
    assert!(discover_one("a.desktop", &once).enabled);
    assert!(matches!(toggle_app(Platform::Linux, "/x/a.desktop", true), Ok(ToggleStep::Rewrite)));
    let twice = toggle_content(&once, true);
    assert!(discover_one("a.desktop", &twice).enabled);
    assert_eq!(once, twice);
}

#[test]
fn toggle_enable_twice_windows() {
    let path = "C:\\Startup\\app.lnk.disabled";
    let enabled = match toggle_app(Platform::Windows, path, true) {
        Ok(ToggleStep::Rename(p)) => p,
        _ => panic!("expected a rename"),
    };
    assert_eq!(enabled, "C:\\Startup\\app.lnk");
    assert!(matches!(toggle_app(Platform::Windows, &enabled, true), Ok(ToggleStep::Unchanged)));
}

#[test]
fn toggle_flips_state() {
    let content = "[Desktop Entry]\nName=A\nExec=a\nX-GNOME-Autostart-enabled=true\n";
    assert!(discover_one("a.desktop", content).enabled);
    let off = toggle_content(content, false);
    assert_eq!(off, "[Desktop Entry]\nName=A\nExec=a\nX-GNOME-Autostart-enabled=false\nHidden=true");
    assert!(!discover_one("a.desktop", &off).enabled);
    let on = toggle_content(&off, true);
    assert!(discover_one("a.desktop", &on).enabled);
}

#[test]
fn toggle_windows_disable_and_enable() {
    match toggle_app(Platform::Windows, "C:\\S\\run.bat", false) {
        Ok(ToggleStep::Rename(p)) => assert_eq!(p, "C:\\S\\run.bat.disabled"),
        _ => panic!("expected a rename"),
    }
    assert_eq!(toggle_path("C:\\S\\run.bat.disabled", true), Some("C:\\S\\run.bat".to_string()));
    assert_eq!(toggle_path("C:\\S\\.disabled", true), None);
    assert_eq!(toggle_path("C:\\S\\run.bat", true), None);
}

#[test]
fn delete_removes_visibility() {
    let a = file("a.desktop", "/d/a.desktop", Some("Name=A\n"));
    let b = file("b.desktop", "/d/b.desktop", Some("Name=B\n"));
    let before = get_startup_apps(Platform::Linux, &vec![a, b]);
    assert!(before.iter().any(|e| e.id == "a.desktop"));
    let b = file("b.desktop", "/d/b.desktop", Some("Name=B\n"));
    let after = get_startup_apps(Platform::Linux, &vec![b]);
    assert!(!after.iter().any(|e| e.id == "a.desktop"));
    assert_eq!(after.len(), 1);
}

#[test]
fn malformed_file_tolerance() {
    let files = vec![
        file("broken.desktop", "/d/broken.desktop", None),
        file("good.desktop", "/d/good.desktop", Some("Name=Good\nExec=good\n")),
    ];
    let apps = get_startup_apps(Platform::Linux, &files);
    assert_eq!(apps.len(), 1);
    assert_eq!(apps[0].name, "Good");
    assert_eq!(apps[0].command, "good");
}

#[test]
fn filename_sanitization() {
    let created = create_app(Platform::Linux, "My/App\\1", "/bin/x", "").unwrap();
    assert_eq!(created.file_name, "my-app-1.desktop");
    assert!(!created.file_name.contains('/'));
    assert!(!created.file_name.contains('\\'));
    assert_eq!(created.file_name, created.file_name.to_lowercase());
    assert_eq!(hyphenate("a b/c\\d"), "a-b-c-d");
}

#[test]
fn sanitized_name_is_lower_cased() {
    let created = create_app(Platform::Linux, "ÄBC Tool", "/bin/x", "").unwrap();
    assert_eq!(created.file_name, "äbc-tool.desktop");
}

#[test]
fn unknown_key_preservation() {
    let content = "[Desktop Entry]\nName=A\nX-Custom=keep me\nHidden=false\nExec=a";
    let out = toggle_content(content, false);
    assert_eq!(out, "[Desktop Entry]\nName=A\nX-Custom=keep me\nHidden=true\nExec=a");
}

#[test]
fn extract_value_rules() {
    let content = "[Desktop Entry]\nName =no\nName= First  \nName=Second\nExec=a=b\r\nEmpty=";
    assert_eq!(extract_value(content, "Name"), Some("First".to_string()));
    assert_eq!(extract_value(content, "Exec"), Some("a=b".to_string()));
    assert_eq!(extract_value(content, "Empty"), Some(String::new()));
    assert_eq!(extract_value(content, "Hidden"), None);
    assert_eq!(extract_value("", "Name"), None);
}

#[test]
fn strip_env_prefixes_from_command() {
    let strip = |s: &str| -> String { strip_env_prefixes(&s.chars().collect::<Vec<char>>()).into_iter().collect() };
    assert_eq!(strip("env GDK_BACKEND=x11 /usr/bin/app --x"), "/usr/bin/app --x");
    assert_eq!(strip("env FOO=1 app"), "FOO=1 app");
    assert_eq!(strip("/bin/true"), "/bin/true");
    assert_eq!(strip("xenv y"), "xenv y");
    assert_eq!(strip("/opt/myenv run"), "/opt/myenv run");
    assert_eq!(strip("env env a"), "env a");
    assert_eq!(strip("env GDK_BACKEND=x11 env a"), "a");
    let app = discover_one("a.desktop", "Exec=env GDK_BACKEND=x11 zen\n");
    assert_eq!(app.command, "zen");
}

#[test]
fn flags_decide_enabled() {
    assert!(!discover_one("a.desktop", "Hidden=TRUE\n").enabled);
    assert!(!discover_one("a.desktop", "X-GNOME-Autostart-enabled=False\n").enabled);
    assert!(discover_one("a.desktop", "Hidden=yes\n").enabled);
    assert!(!discover_one("a.desktop", "X-GNOME-Autostart-enabled=yes\n").enabled);
    assert!(discover_one("a.desktop", "Name=A\n").enabled);
}

#[test]
fn name_falls_back_to_file_name() {
    let app = discover_one("thing.desktop", "Exec=thing\n");
    assert_eq!(app.name, "thing.desktop");
    let app = parse_desktop_entry("t.desktop", "/p/t.desktop", "");
    assert_eq!(app.name, "t.desktop");
    assert_eq!(app.command, "");
    assert!(app.enabled);
}

#[test]
fn linux_discovery_filters_extension() {
    let files = vec![
        file("autostart", "/d", None),
        file("notes.txt", "/d/notes.txt", Some("Name=N\n")),
        file(".desktop", "/d/.desktop", Some("Name=Hidden dot\n")),
        file("ok.desktop", "/d/ok.desktop", Some("Name=Ok\n")),
    ];
    let apps = get_startup_apps(Platform::Linux, &files);
    assert_eq!(apps.len(), 1);
    assert_eq!(apps[0].name, "Ok");
    assert!(is_startup_file(Platform::Linux, "x.desktop"));
    assert!(!is_startup_file(Platform::Linux, "x.desktop.bak"));
}

#[test]
fn windows_discovery() {
    let files = vec![
        file("App.lnk", "C:\\S\\App.lnk", None),
        file("run.bat", "C:\\S\\run.bat", None),
        file("x.lnk.disabled", "C:\\S\\x.lnk.disabled", None),
        file("readme.txt", "C:\\S\\readme.txt", None),
        file("tool.exe", "C:\\S\\tool.exe", None),
        file("go.cmd", "C:\\S\\go.cmd", None),
    ];
    let apps = get_startup_apps(Platform::Windows, &files);
    let names: Vec<&str> = apps.iter().map(|a| a.name.as_str()).collect();
    assert_eq!(names, vec!["App", "run.bat", "tool.exe", "go.cmd"]);
    assert_eq!(apps[0].command, "C:\\S\\App.lnk");
    assert_eq!(apps[0].id, "App.lnk");
    assert!(apps.iter().all(|a| a.enabled));
    let e = parse_folder_entry("a.lnk.lnk", "p");
    assert_eq!(e.name, "a.lnk");
    let e = parse_folder_entry("my.lnk.tool.lnk", "p");
    assert_eq!(e.name, "my.lnk.tool");
}

#[test]
fn windows_create_batch_file() {
    let created = create_app(Platform::Windows, "My App", "C:\\app.exe", "ignored").unwrap();
    assert_eq!(created.file_name, "my-app.bat");
    assert_eq!(created.content, "@echo off\nstart \"\" \"C:\\app.exe\"");
    assert_eq!(batch_file_content("x"), "@echo off\nstart \"\" \"x\"");
}

#[test]
fn unsupported_platform() {
    let files = vec![file("a.desktop", "/d/a.desktop", Some("Name=A\n"))];
    assert!(get_startup_apps(Platform::Unsupported, &files).is_empty());
    assert!(matches!(toggle_app(Platform::Unsupported, "/d/a.desktop", true), Err(e) if e == "Not supported on this OS"));
    assert!(matches!(create_app(Platform::Unsupported, "a", "b", "c"), Err(e) if e == "Not supported on this OS"));
    assert!(matches!(new_entry_file(Platform::Unsupported, "a", "a", "b", "c"), Err(e) if e == "Not supported on this OS"));
}

#[test]
fn new_entry_file_uses_given_stem() {
    let f = new_entry_file(Platform::Linux, "stem", "N", "c", "d").unwrap();
    assert_eq!(f.file_name, "stem.desktop");
    assert_eq!(f.content, desktop_file_content("N", "c", "d"));
}

#[test]
fn toggle_without_flags_appends_hidden() {
    assert_eq!(toggle_content("", true), "Hidden=false");
    assert_eq!(toggle_content("Name=A\r\nExec=a\n", true), "Name=A\nExec=a\nHidden=false");
    assert_eq!(toggle_content("Hidden=true\nHidden=true", true), "Hidden=false\nHidden=false");
}

#[test]
fn create_adds_exactly_one_entry_to_a_listing() {
    let mut files = vec![
        file("a.desktop", "/d/a.desktop", Some("Name=A\nExec=a\n")),
        file("notes.txt", "/d/notes.txt", None),
    ];
    let before = get_startup_apps(Platform::Linux, &files);
    let created = create_app(Platform::Linux, "Foo Bar", "/bin/foo", "d").unwrap();
    files.push(file(&created.file_name, "/d/foo-bar.desktop", Some(&created.content)));
    let after = get_startup_apps(Platform::Linux, &files);
    assert_eq!(after.len(), before.len() + 1);
    assert_eq!(after.iter().filter(|e| e.id == "foo-bar.desktop").count(), 1);
    assert!(before.iter().all(|b| after.iter().any(|e| e.id == b.id)));
}

#[test]
fn toggle_in_listing_flips_and_restores() {
    let mut files = vec![
        file("a.desktop", "/d/a.desktop", Some("Name=A\nExec=a\n")),
        file("b.desktop", "/d/b.desktop", Some("Name=B\nExec=b\n")),
    ];
    let off = toggle_content(files[1].content.as_deref().unwrap(), false);
    files[1].content = Some(off.clone());
    let listed = get_startup_apps(Platform::Linux, &files);
    let b = listed.iter().find(|e| e.id == "b.desktop").unwrap();
    assert!(!b.enabled);
    assert_eq!(b.path, "/d/b.desktop");
    files[1].content = Some(toggle_content(&off, true));
    let listed = get_startup_apps(Platform::Linux, &files);
    assert!(listed.iter().find(|e| e.id == "b.desktop").unwrap().enabled);
    assert!(listed.iter().find(|e| e.id == "a.desktop").unwrap().enabled);
}
