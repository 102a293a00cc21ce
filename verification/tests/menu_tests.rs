use barmenu::config::{default_menu, CustomEntry, MenuConfig, XdgEntry};
use barmenu::index::CategoryIndex;
use barmenu::parse::parse_config;
use barmenu::menu::{Menu, MenuEntry};
use barmenu::parse::ConfigError;
use barmenu::records::MenuApplication;

fn app(label: &str, file_name: &str, categories: &[&str]) -> MenuApplication {
    MenuApplication {
        label: label.to_owned(),
        file_name: file_name.to_owned(),
        categories: categories.iter().map(|c| (*c).to_owned()).collect(),
    }
}

fn xdg(label: &str, categories: &[&str]) -> MenuConfig {
    MenuConfig::XdgEntry(XdgEntry {
        label: label.to_owned(),
        icon: None,
        categories: categories.iter().map(|c| (*c).to_owned()).collect(),
    })
}

fn section_apps<'a>(entries: &'a [MenuEntry], label: &str) -> &'a [MenuApplication] {
    for entry in entries {
        if let MenuEntry::Xdg(section) = entry {
            if section.label == label {
                return &section.applications;
            }
        }
    }
    panic!("no section labelled {label}");
}

#[test]
fn scenario_graphics_and_other() {
    let center = vec![xdg("Graphics", &["Graphics"]), MenuConfig::XdgOther];
    let mut menu = Menu::new(&Vec::new(), &center, &Vec::new()).unwrap();
    let batch = vec![app("GIMP", "gimp.desktop", &["Graphics"]), app(
        "Foo",
        "foo.desktop",
        &["Unknown"],
    )];
    menu.insert_batch(&batch);

    let graphics = section_apps(&menu.center, "Graphics");
    assert_eq!(graphics.len(), 1);
    assert_eq!(graphics[0].label, "GIMP");

    let other = section_apps(&menu.center, "Other");
    assert_eq!(other.len(), 1);
    assert_eq!(other[0].label, "Foo");
}

#[test]
fn idempotent_insertion_keeps_latest_fields() {
    let center = vec![xdg("Graphics", &["Graphics"])];
    let mut menu = Menu::new(&Vec::new(), &center, &Vec::new()).unwrap();
    menu.insert_application(&app("GIMP", "gimp-old.desktop", &["Graphics"]));
    menu.insert_application(&app("GIMP", "gimp-new.desktop", &["Graphics"]));

    let graphics = section_apps(&menu.center, "Graphics");
    assert_eq!(graphics.len(), 1);
    assert_eq!(graphics[0].file_name, "gimp-new.desktop");
}

#[test]
fn fan_out_across_start_and_end() {
    let start = vec![xdg("Media", &["Audio"])];
    let end = vec![xdg("Sound", &["Audio"])];
    let mut menu = Menu::new(&start, &Vec::new(), &end).unwrap();
    menu.insert_application(&app("Player", "player.desktop", &["Audio"]));

    assert_eq!(section_apps(&menu.start, "Media").len(), 1);
    assert_eq!(section_apps(&menu.end, "Sound").len(), 1);
}

#[test]
fn fan_out_within_one_slot() {
    let center = vec![xdg("First", &["Tag"]), xdg("Second", &["Tag"])];
    let mut menu = Menu::new(&Vec::new(), &center, &Vec::new()).unwrap();
    menu.insert_application(&app("Tool", "tool.desktop", &["Tag"]));

    assert_eq!(section_apps(&menu.center, "First").len(), 1);
    assert_eq!(section_apps(&menu.center, "Second").len(), 1);
}

#[test]
fn sorted_order_after_insertions() {
    let center = vec![xdg("Apps", &["X"])];
    let mut menu = Menu::new(&Vec::new(), &center, &Vec::new()).unwrap();
    for name in ["Zed", "Alpha", "Mango", "beta"] {
        menu.insert_application(&app(name, &format!("{name}.desktop"), &["X"]));
    }
    let labels: Vec<&str> = section_apps(&menu.center, "Apps")
        .iter()
        .map(|a| a.label.as_str())
        .collect();
    assert_eq!(labels, vec!["Alpha", "Mango", "Zed", "beta"]);
}

#[test]
fn sorted_order_by_unicode_scalar_values() {
    let center = vec![xdg("Apps", &["X"])];
    let mut menu = Menu::new(&Vec::new(), &center, &Vec::new()).unwrap();
    for name in ["Émacs", "beta", "Zed"] {
        menu.insert_application(&app(name, "f.desktop", &["X"]));
    }
    let labels: Vec<&str> = section_apps(&menu.center, "Apps")
        .iter()
        .map(|a| a.label.as_str())
        .collect();
    // Scalar-value order: 'Z' < 'b' < 'É'.
    assert_eq!(labels, vec!["Zed", "beta", "Émacs"]);
}

#[test]
fn parse_config_builds_the_category_index() {
    let mut index = CategoryIndex::new();
    let config = vec![xdg("Media", &["Audio", "Video"]), xdg("Films", &["Video"])];
    let entries = parse_config(&config, &mut index).unwrap();
    assert_eq!(entries.len(), 2);

    // Fan-out: the shared tag routes to both sections, in declaration order.
    let video = index.lookup("Video").unwrap();
    assert_eq!(video, &vec!["Media".to_owned(), "Films".to_owned()]);
    let audio = index.lookup("Audio").unwrap();
    assert_eq!(audio, &vec!["Media".to_owned()]);
    assert!(index.lookup("Office").is_none());
}

#[test]
fn arrival_order_independence() {
    let center = vec![xdg("Apps", &["X"]), MenuConfig::XdgOther];
    let records = vec![
        app("C", "c.desktop", &["X"]),
        app("A", "a.desktop", &["X"]),
        app("B", "b.desktop", &["Unknown"]),
    ];

    let mut menu1 = Menu::new(&Vec::new(), &center, &Vec::new()).unwrap();
    menu1.insert_batch(&records);

    let mut reversed = records.clone();
    reversed.reverse();
    let mut menu2 = Menu::new(&Vec::new(), &center, &Vec::new()).unwrap();
    menu2.insert_batch(&reversed);

    assert_eq!(menu1, menu2);
}

#[test]
fn overflow_exclusivity() {
    let start = vec![xdg("Media", &["Audio"])];
    let center = vec![MenuConfig::XdgOther];
    let mut menu = Menu::new(&start, &center, &Vec::new()).unwrap();

    // A record matched in the start slot never reaches the catch-all.
    menu.insert_application(&app("Player", "player.desktop", &["Audio", "Strange"]));
    // A record with only unknown tags reaches it.
    menu.insert_application(&app("Oddity", "oddity.desktop", &["Strange"]));

    let other = section_apps(&menu.center, "Other");
    assert_eq!(other.len(), 1);
    assert_eq!(other[0].label, "Oddity");
    assert_eq!(section_apps(&menu.start, "Media").len(), 1);
}

#[test]
fn duplicate_label_is_rejected() {
    let center = vec![xdg("Apps", &["X"]), xdg("Apps", &["Y"])];
    let err = Menu::new(&Vec::new(), &center, &Vec::new()).unwrap_err();
    let ConfigError::DuplicateLabel(label) = err;
    assert_eq!(label, "Apps");
}

#[test]
fn duplicate_catch_all_is_rejected() {
    let center = vec![MenuConfig::XdgOther, MenuConfig::XdgOther];
    let err = Menu::new(&Vec::new(), &center, &Vec::new()).unwrap_err();
    let ConfigError::DuplicateLabel(label) = err;
    assert_eq!(label, "Other");
}

#[test]
fn custom_entries_take_no_applications() {
    let center = vec![
        MenuConfig::Custom(CustomEntry {
            icon: None,
            label: "Lock".to_owned(),
            on_click: "loginctl lock-session".to_owned(),
        }),
        MenuConfig::XdgOther,
    ];
    let mut menu = Menu::new(&Vec::new(), &center, &Vec::new()).unwrap();
    menu.insert_application(&app("Tool", "tool.desktop", &["Anything"]));

    match &menu.center[0] {
        MenuEntry::Custom(custom) => {
            assert_eq!(custom.label, "Lock");
            assert_eq!(custom.on_click, "loginctl lock-session");
        },
        MenuEntry::Xdg(_) => panic!("expected the custom entry first"),
    }
    assert_eq!(section_apps(&menu.center, "Other").len(), 1);
}

#[test]
fn default_menu_routes_standard_categories() {
    let menu_config = default_menu();
    assert_eq!(menu_config.len(), 12);
    assert!(matches!(menu_config[11], MenuConfig::XdgOther));

    let mut menu = Menu::new(&Vec::new(), &menu_config, &Vec::new()).unwrap();
    menu.insert_batch(&vec![
        app("GIMP", "gimp.desktop", &["Graphics"]),
        app("Quake", "quake.desktop", &["Game"]),
        app("Mystery", "mystery.desktop", &["NoSuchCategory"]),
    ]);
    assert_eq!(section_apps(&menu.center, "Graphics")[0].label, "GIMP");
    assert_eq!(section_apps(&menu.center, "Games")[0].label, "Quake");
    assert_eq!(section_apps(&menu.center, "Other")[0].label, "Mystery");
}

#[test]
fn slot_order_follows_configuration() {
    let center = vec![xdg("Zulu", &["Z"]), xdg("Alpha", &["A"]), MenuConfig::XdgOther];
    let menu = Menu::new(&Vec::new(), &center, &Vec::new()).unwrap();
    let labels: Vec<String> = menu.center.iter().map(|e| e.label()).collect();
    assert_eq!(labels, vec!["Zulu", "Alpha", "Other"]);
}

#[test]
fn entry_label_and_icon() {
    let entry = MenuEntry::Custom(CustomEntry {
        icon: Some("system-lock-screen".to_owned()),
        label: "Lock".to_owned(),
        on_click: "lock".to_owned(),
    });
    assert_eq!(entry.label(), "Lock");
    assert_eq!(entry.icon(), Some("system-lock-screen".to_owned()));
}
