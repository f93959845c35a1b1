use graft::{check_dir, dir_check_outcome, dir_is_empty, emptiness_outcome, preflight, CliError};

#[test]
#[allow(non_snake_case)]
fn test_check_dir_NotDir() {
    assert_eq!(
        check_dir(&String::from(r"asdfasd")).unwrap_err().to_string(),
        String::from("Not a Directory: asdfasd")
    );
}

#[test]
#[allow(non_snake_case)]
fn test_check_dir_IsDir() {
    assert_eq!(check_dir(&String::from(r"/dev")).unwrap(), String::from("/dev"));
}

#[test]
#[allow(non_snake_case)]
fn test_dir_is_empty_NotDir() {
    assert_eq!(
        dir_is_empty(&String::from("asdfasd")).unwrap_err().to_string(),
        String::from("Not a Directory: asdfasd")
    );
}

#[test]
#[allow(non_snake_case)]
fn test_dir_is_empty_False() {
    // on Linux systems, "/" should always be a directory and never be empty
    assert_eq!(dir_is_empty(&String::from("/")).unwrap(), false,);
}

#[test]
fn source_that_is_a_file_is_refused() {
    let r = check_dir(&String::from("/etc/hostname"));
    match r {
        Err(CliError::NotDir(p)) => assert_eq!(p, "/etc/hostname"),
        other => panic!("unexpected: {:?}", other),
    }
}

#[test]
fn outcome_of_directory_check() {
    assert_eq!(dir_check_outcome(&String::from("/src"), true).unwrap(), "/src");
    match dir_check_outcome(&String::from("/src/a.txt"), false) {
        Err(CliError::NotDir(p)) => assert_eq!(p, "/src/a.txt"),
        other => panic!("unexpected: {:?}", other),
    }
}

#[test]
fn empty_listing_is_empty() {
    assert_eq!(emptiness_outcome(&String::from("/dst"), Some(0)).unwrap(), true);
}

#[test]
fn listing_with_one_entry_is_not_empty() {
    assert_eq!(emptiness_outcome(&String::from("/dst"), Some(1)).unwrap(), false);
    assert_eq!(emptiness_outcome(&String::from("/dst"), Some(usize::MAX)).unwrap(), false);
}

#[test]
fn unlistable_destination_is_not_a_directory() {
    let e = emptiness_outcome(&String::from("/dst"), None).unwrap_err();
    assert_eq!(e.to_string(), "Not a Directory: /dst");
}

#[test]
fn non_empty_destination_is_refused() {
    let shown = String::from("/home/user/dst");
    let e = preflight(&shown, Ok(false)).unwrap_err();
    assert_eq!(e.to_string(), "Destination directory (/home/user/dst) is not empty");
}

#[test]
fn empty_destination_is_accepted() {
    assert!(preflight(&String::from("/dst"), Ok(true)).is_ok());
}

#[test]
fn failed_listing_is_passed_on() {
    let e = preflight(&String::from("/dst"), Err(CliError::NotDir(String::from("/dst")))).unwrap_err();
    assert_eq!(e.to_string(), "Not a Directory: /dst");
}

#[test]
fn wrong_args_message() {
    assert_eq!(CliError::WrongArgs.to_string(), "Wrong number of args");
}
