use linuxrpc::cli::{
    delete_action, edit_action, main_action, returns_to_menu, DeleteAction, EditAction,
    MainAction, EDIT_MENU, MAIN_MENU,
};

#[test]
fn main_menu_choices() {
    assert_eq!(MAIN_MENU[0], "Swap Config");
    assert_eq!(main_action(0), MainAction::Swap);
    assert_eq!(main_action(1), MainAction::Edit);
    assert_eq!(main_action(2), MainAction::Create);
    assert_eq!(main_action(3), MainAction::Remove);
    assert_eq!(main_action(4), MainAction::Exit);
    assert_eq!(main_action(99), MainAction::Exit);
}

#[test]
fn edit_menu_choices() {
    assert_eq!(EDIT_MENU[2], "Back");
    assert_eq!(edit_action(0), EditAction::Add);
    assert_eq!(edit_action(1), EditAction::Remove);
    assert_eq!(edit_action(2), EditAction::Back);
    assert_eq!(edit_action(7), EditAction::Back);
}

#[test]
fn delete_confirmation_choices() {
    assert_eq!(delete_action(0), DeleteAction::Delete);
    assert_eq!(delete_action(1), DeleteAction::Abort);
    assert_eq!(delete_action(2), DeleteAction::Ignore);
}

#[test]
fn every_action_but_exit_returns_to_the_menu() {
    assert!(returns_to_menu(&MainAction::Swap));
    assert!(returns_to_menu(&MainAction::Edit));
    assert!(returns_to_menu(&MainAction::Create));
    assert!(returns_to_menu(&MainAction::Remove));
    assert!(!returns_to_menu(&MainAction::Exit));
}
