use hippo_party::names::{generate_username, USERNAMES};

#[test]
fn the_list_of_names_is_complete() {
    assert_eq!(USERNAMES.len(), 141);
    assert_eq!(USERNAMES[0], "Hiphopopotamus");
    assert_eq!(USERNAMES[2], "Steve");
    assert_eq!(USERNAMES[140], "Chi-town Potamus");
}

#[test]
fn a_generated_name_is_one_of_the_list() {
    for _ in 0..200 {
        let name = generate_username();
        assert!(USERNAMES.contains(&name.as_str()));
    }
}

#[test]
fn generated_names_vary() {
    let first = generate_username();
    let mut differs = false;
    for _ in 0..500 {
        if generate_username() != first {
            differs = true;
        }
    }
    assert!(differs);
}
