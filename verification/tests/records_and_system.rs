use zbus::records::fixed_records;
use zbus::system::{privilege_name, running_as, Privilege};

#[test]
fn records_drop_short_tail() {
    let data: Vec<u8> = (0..10).collect();
    let r = fixed_records(&data, 4);
    assert_eq!(r, vec![vec![0, 1, 2, 3], vec![4, 5, 6, 7]]);
}

#[test]
fn records_exact_fit() {
    let data: Vec<u8> = (0..6).collect();
    assert_eq!(fixed_records(&data, 3).len(), 2);
    assert!(fixed_records(&[], 3).is_empty());
    assert_eq!(fixed_records(&[9], 1), vec![vec![9]]);
}

#[test]
fn privilege_names() {
    assert_eq!(privilege_name(Privilege::Root), "root");
    assert_eq!(privilege_name(Privilege::User), "user");
    assert_eq!(privilege_name(Privilege::Suid), "suid");
}

#[test]
fn running_as_is_a_known_name() {
    let r = running_as();
    assert!(r == "root" || r == "user" || r == "suid");
}
