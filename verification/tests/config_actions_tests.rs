use classic_menu::actions::{LaunchError, PopupType, PowerAction, SystemTool};
use classic_menu::config::{
    AppletButtonStyle, CosmicClassicMenuConfig, HorizontalPosition, UserWidgetStyle,
    VerticalPosition,
};
use classic_menu::model::{ApplicationEntry, IconHandle};
use classic_menu::recency::RecentApplication;

#[test]
fn configuration_defaults() {
    let c = CosmicClassicMenuConfig::default();
    assert_eq!(c.app_menu_position, HorizontalPosition::Left);
    assert_eq!(c.search_field_position, VerticalPosition::Top);
    assert_eq!(c.applet_button_style, AppletButtonStyle::Auto);
    assert_eq!(c.user_widget, UserWidgetStyle::UsernamePrefered);
    assert!(c.recent_applications.is_empty());
    assert_eq!(PopupType::default(), PopupType::MainMenu);
}

#[test]
fn missing_store_resolves_to_defaults() {
    let c = CosmicClassicMenuConfig::config(None);
    assert_eq!(c.applet_button_style, AppletButtonStyle::Auto);
    assert!(c.recent_applications.is_empty());
}

#[test]
fn stored_configuration_passes_through() {
    let stored = CosmicClassicMenuConfig {
        app_menu_position: HorizontalPosition::Right,
        search_field_position: VerticalPosition::Bottom,
        applet_button_style: AppletButtonStyle::LabelOnly,
        user_widget: UserWidgetStyle::Hidden,
        recent_applications: vec![RecentApplication {
            app_id: String::from("files"),
            launch_count: 4,
        }],
    };
    let c = CosmicClassicMenuConfig::config(Some(stored));
    assert_eq!(c.app_menu_position, HorizontalPosition::Right);
    assert_eq!(c.search_field_position, VerticalPosition::Bottom);
    assert_eq!(c.applet_button_style, AppletButtonStyle::LabelOnly);
    assert_eq!(c.user_widget, UserWidgetStyle::Hidden);
    assert_eq!(c.recent_applications.len(), 1);
    assert_eq!(c.recent_applications[0].app_id, "files");
    assert_eq!(c.recent_applications[0].launch_count, 4);
}

#[test]
fn system_tool_commands_outside_sandbox() {
    let (exec, args) = SystemTool::SystemSettings.command(false).unwrap();
    assert_eq!(exec, "cosmic-settings");
    assert!(args.is_empty());
    let (exec, args) = SystemTool::SystemMonitor.command(false).unwrap();
    assert_eq!(exec, "gnome-system-monitor");
    assert!(args.is_empty());
    let (exec, args) = SystemTool::DiskManagement.command(false).unwrap();
    assert_eq!(exec, "gnome-disks");
    assert!(args.is_empty());
}

#[test]
fn system_tool_commands_inside_sandbox_escape_through_flatpak_spawn() {
    let (exec, args) = SystemTool::SystemSettings.command(true).unwrap();
    assert_eq!(exec, "flatpak-spawn");
    assert_eq!(args, vec![String::from("--host"), String::from("cosmic-settings")]);
}

#[test]
fn applet_settings_launch_as_a_desktop_entry() {
    assert!(SystemTool::AppletSettings.command(false).is_none());
    assert!(SystemTool::AppletSettings.command(true).is_none());
}

#[test]
fn power_actions_going_through_the_osd_helper() {
    assert_eq!(PowerAction::Logout.osd_argument(), Some("log-out"));
    assert_eq!(PowerAction::Reboot.osd_argument(), Some("restart"));
    assert_eq!(PowerAction::Shutdown.osd_argument(), Some("shutdown"));
    assert_eq!(PowerAction::Lock.osd_argument(), None);
    assert_eq!(PowerAction::Suspend.osd_argument(), None);
}

#[test]
fn launch_command_hands_out_command_and_terminal_flag() {
    let rec = ApplicationEntry {
        name: String::from("Terminal"),
        id: String::from("term"),
        icon: IconHandle::Fallback,
        comment: None,
        exec_command: Some(String::from("term -e shell")),
        category: Vec::new(),
        is_terminal: true,
        desktop_actions: Vec::new(),
    };
    let (cmd, in_terminal) = rec.launch_command().unwrap();
    assert_eq!(cmd, "term -e shell");
    assert!(in_terminal);
}

#[test]
fn launching_a_record_without_command_is_refused() {
    let rec = ApplicationEntry {
        name: String::from("Document"),
        id: String::from("doc"),
        icon: IconHandle::Fallback,
        comment: None,
        exec_command: None,
        category: Vec::new(),
        is_terminal: false,
        desktop_actions: Vec::new(),
    };
    assert_eq!(rec.launch_command().unwrap_err(), LaunchError::Unlaunchable);
}
