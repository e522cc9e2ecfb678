use tcp_chat::helpers::{validate_yn, CmdResponse};

#[test]
fn yes_in_any_case_is_a_yes() {
    assert!("yes".to_string().is_yes());
    assert!("y".to_string().is_yes());
    assert!("YES".to_string().is_yes());
    assert!("Yes".to_string().is_yes());
    assert!("Y".to_string().is_yes());
}

#[test]
fn whatever_is_no_yes_is_a_no() {
    assert!(!"no".to_string().is_yes());
    assert!(!"n".to_string().is_yes());
    assert!(!"".to_string().is_yes());
    assert!(!"yes please".to_string().is_yes());
    assert!(!" yes".to_string().is_yes());
    assert!(!"yeah".to_string().is_yes());
}

#[test]
fn yes_and_no_are_answers() {
    for answer in ["y", "yes", "n", "no", "Y", "YES", "N", "NO", "nO", "yEs"] {
        assert!(validate_yn(&answer.to_string()));
    }
}

#[test]
fn anything_else_is_no_answer() {
    for answer in ["", "maybe", "yes!", "n o", "ye", "nope", " y"] {
        assert!(!validate_yn(&answer.to_string()));
    }
}
