use barmenu::bindings::{
    popup_alignment, visibility_after_poll, Alignment, BarPosition, CommonConfig, ModuleLocation,
    ScrollDirection,
};

fn config_with_bindings() -> CommonConfig {
    CommonConfig {
        show_if: Some("pgrep game".to_owned()),
        on_click_left: Some("left".to_owned()),
        on_click_right: Some("right".to_owned()),
        on_click_middle: Some("middle".to_owned()),
        on_scroll_up: Some("up".to_owned()),
        on_scroll_down: Some("down".to_owned()),
        on_mouse_enter: None,
        on_mouse_exit: None,
        tooltip: None,
    }
}

#[test]
fn click_dispatch_by_button_identity() {
    let config = config_with_bindings();
    assert_eq!(config.click_script(1).map(String::as_str), Some("left"));
    assert_eq!(config.click_script(2).map(String::as_str), Some("middle"));
    assert_eq!(config.click_script(3).map(String::as_str), Some("right"));
    assert_eq!(config.click_script(4), None);
    assert_eq!(config.click_script(0), None);
}

#[test]
fn unbound_clicks_are_no_ops() {
    let config = CommonConfig::default();
    assert_eq!(config.click_script(1), None);
    assert_eq!(config.click_script(2), None);
    assert_eq!(config.click_script(3), None);
}

#[test]
fn scroll_dispatch_by_direction() {
    let config = config_with_bindings();
    assert_eq!(config.scroll_script(ScrollDirection::Up).map(String::as_str), Some("up"));
    assert_eq!(config.scroll_script(ScrollDirection::Down).map(String::as_str), Some("down"));
    assert_eq!(config.scroll_script(ScrollDirection::Left), None);
    assert_eq!(config.scroll_script(ScrollDirection::Smooth), None);
}

#[test]
fn visibility_without_show_if_is_permanent() {
    let config = CommonConfig::default();
    assert!(config.initial_visibility());
}

#[test]
fn show_if_drives_visibility() {
    // A configured show_if script hides the container until the first result.
    let config = config_with_bindings();
    assert!(!config.initial_visibility());
    // A script that always exits 0: visible after the first poll result.
    assert!(visibility_after_poll(true));
    // A script that always exits 1: hidden after every poll result.
    assert!(!visibility_after_poll(false));
}

#[test]
fn default_config_has_no_bindings() {
    let config = CommonConfig::default();
    assert_eq!(config, CommonConfig {
        show_if: None,
        on_click_left: None,
        on_click_right: None,
        on_click_middle: None,
        on_scroll_up: None,
        on_scroll_down: None,
        on_mouse_enter: None,
        on_mouse_exit: None,
        tooltip: None,
    });
}

#[test]
fn fixed_height_menus_align_to_the_top() {
    assert_eq!(
        popup_alignment(true, BarPosition::Bottom, ModuleLocation::Right),
        Alignment::Start,
    );
}

#[test]
fn alignment_follows_bar_position() {
    assert_eq!(popup_alignment(false, BarPosition::Top, ModuleLocation::Right), Alignment::Start);
    assert_eq!(popup_alignment(false, BarPosition::Bottom, ModuleLocation::Left), Alignment::End);
}

#[test]
fn alignment_on_vertical_bars_follows_location() {
    assert_eq!(popup_alignment(false, BarPosition::Left, ModuleLocation::Left), Alignment::Start);
    assert_eq!(
        popup_alignment(false, BarPosition::Left, ModuleLocation::Center),
        Alignment::Start,
    );
    assert_eq!(popup_alignment(false, BarPosition::Right, ModuleLocation::Right), Alignment::End);
}

#[test]
fn default_module_configuration() {
    let module = barmenu::config::MenuModule::default();
    assert!(module.start.is_empty());
    assert!(module.end.is_empty());
    assert_eq!(module.center.len(), 12);
    assert_eq!(module.max_label_length, 25);
    assert_eq!(module.label.as_deref(), Some("\u{2261}"));
    assert_eq!(module.label_icon_size, 16);
    assert!(module.common.is_some());

    let menu = module.build_menu().unwrap();
    assert_eq!(menu.center.len(), 12);
}
