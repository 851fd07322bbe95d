use timings::DbusMenu;
use timings::DesktopId;
use timings::IdleNotification;
use timings::VDMessage;
use timings::VirtualDesktopMessage;

#[test]
fn tray_menu_answers_are_fixed() {
    let menu = DbusMenu::new();
    assert_eq!(menu.version(), 3);
    assert!(menu.has_layout(0));
    assert!(!menu.has_layout(1));
    assert!(!menu.has_layout(-7));
    assert_eq!(menu.quit_item_id(), 1);
    assert_eq!(menu.quit_label(), "Quit");
}

#[test]
fn signal_shapes_carry_their_payloads() {
    let id = DesktopId("desktop-2".to_string());
    let renamed = VirtualDesktopMessage::DesktopNameChanged(id.clone(), "Acme: Site".to_string());
    match renamed {
        VirtualDesktopMessage::DesktopNameChanged(seen, name) => {
            assert_eq!(seen, id);
            assert_eq!(name, "Acme: Site");
        }
        _ => panic!("wrong variant"),
    }

    let switch = VDMessage::DesktopChange("Acme: Site".to_string());
    match switch {
        VDMessage::DesktopChange(name) => assert_eq!(name, "Acme: Site"),
        _ => panic!("wrong variant"),
    }

    let idle = IdleNotification::Idle;
    assert!(matches!(idle, IdleNotification::Idle));
    assert!(matches!(IdleNotification::Resumed, IdleNotification::Resumed));
    assert!(matches!(VirtualDesktopMessage::Idle, VirtualDesktopMessage::Idle));
    assert!(matches!(VDMessage::Active, VDMessage::Active));
}
