use aur_update::platform::Probe::{Found, Missing, Unavailable};
use aur_update::platform::{get_aur_helper, is_arch_linux, next_probe, Platform, HELPER_COUNT};

#[test]
fn absent_description_is_not_arch() {
    assert!(!is_arch_linux(Platform::Linux, None));
    assert!(!is_arch_linux(Platform::Other, None));
}

#[test]
fn description_without_a_token_is_not_arch() {
    assert!(!is_arch_linux(Platform::Linux, Some("")));
    assert!(!is_arch_linux(Platform::Linux, Some("NAME=\"Ubuntu\"\nID=ubuntu\nID_LIKE=debian\n")));
    assert!(!is_arch_linux(Platform::Linux, Some("ID =arch\nid=arch\nID_LIKE=\"arch\"\n")));
    assert!(!is_arch_linux(Platform::Linux, Some("ID=arc")));
}

#[test]
fn description_with_a_token_is_arch() {
    assert!(is_arch_linux(Platform::Linux, Some("NAME=\"Arch Linux\"\nID=arch\n")));
    assert!(is_arch_linux(Platform::Linux, Some("NAME=Manjaro\nID=manjaro\nID_LIKE=arch\n")));
    assert!(is_arch_linux(Platform::Linux, Some("ID=archlinux")));
    assert!(is_arch_linux(Platform::Linux, Some("ID=arch")));
    assert!(is_arch_linux(Platform::Linux, Some("名前\nID_LIKE=arch linux\n")));
}

#[test]
fn other_platforms_are_never_arch() {
    assert!(!is_arch_linux(Platform::Other, Some("ID=arch\n")));
    assert!(!is_arch_linux(Platform::Other, Some("ID_LIKE=arch\n")));
}

#[test]
fn search_asks_for_each_helper_in_turn() {
    assert_eq!(HELPER_COUNT, 5);
    assert_eq!(next_probe(Platform::Linux, &[]), Some("yay"));
    assert_eq!(next_probe(Platform::Linux, &[Missing]), Some("paru"));
    assert_eq!(next_probe(Platform::Linux, &[Missing, Missing]), Some("pamac"));
    assert_eq!(next_probe(Platform::Linux, &[Missing; 3]), Some("trizen"));
    assert_eq!(next_probe(Platform::Linux, &[Missing; 4]), Some("pacaur"));
    assert_eq!(next_probe(Platform::Linux, &[Missing; 5]), None);
    assert_eq!(next_probe(Platform::Linux, &[Missing; 6]), None);
}

#[test]
fn search_ends_with_the_first_answer_that_settles_it() {
    assert_eq!(next_probe(Platform::Linux, &[Found]), None);
    assert_eq!(next_probe(Platform::Linux, &[Unavailable]), None);
    assert_eq!(next_probe(Platform::Linux, &[Missing, Found]), None);
    assert_eq!(next_probe(Platform::Linux, &[Missing, Missing, Unavailable]), None);
    assert_eq!(next_probe(Platform::Other, &[]), None);
    assert_eq!(next_probe(Platform::Other, &[Missing]), None);
}

#[test]
fn first_helper_found_is_chosen() {
    assert_eq!(get_aur_helper(Platform::Linux, &[Found]), Some("yay".to_string()));
    assert_eq!(get_aur_helper(Platform::Linux, &[Missing, Found]), Some("paru".to_string()));
    assert_eq!(get_aur_helper(Platform::Linux, &[Missing, Missing, Found]), Some("pamac".to_string()));
    assert_eq!(get_aur_helper(Platform::Linux, &[Missing, Missing, Missing, Found]), Some("trizen".to_string()));
    assert_eq!(get_aur_helper(Platform::Linux, &[Missing, Missing, Missing, Missing, Found]), Some("pacaur".to_string()));
    assert_eq!(get_aur_helper(Platform::Linux, &[Found, Found, Found]), Some("yay".to_string()));
    assert_eq!(get_aur_helper(Platform::Linux, &[Missing, Found, Missing, Found]), Some("paru".to_string()));
}

#[test]
fn no_helper_where_none_is_found() {
    assert_eq!(get_aur_helper(Platform::Linux, &[]), None);
    assert_eq!(get_aur_helper(Platform::Linux, &[Missing]), None);
    assert_eq!(get_aur_helper(Platform::Linux, &[Missing; 5]), None);
    assert_eq!(get_aur_helper(Platform::Linux, &[Missing, Missing, Missing, Missing, Missing, Found]), None);
}

#[test]
fn no_helper_once_a_lookup_could_not_be_made() {
    assert_eq!(get_aur_helper(Platform::Linux, &[Unavailable]), None);
    assert_eq!(get_aur_helper(Platform::Linux, &[Unavailable, Found]), None);
    assert_eq!(get_aur_helper(Platform::Linux, &[Missing, Unavailable, Found]), None);
    assert_eq!(get_aur_helper(Platform::Linux, &[Found, Unavailable]), Some("yay".to_string()));
}

#[test]
fn no_helper_on_other_platforms() {
    assert_eq!(get_aur_helper(Platform::Other, &[]), None);
    assert_eq!(get_aur_helper(Platform::Other, &[Found]), None);
    assert_eq!(get_aur_helper(Platform::Other, &[Missing, Found]), None);
}
