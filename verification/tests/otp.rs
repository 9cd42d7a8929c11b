use mezon_ui::otp::OtpInput;

fn boxes(input: &OtpInput) -> Vec<String> {
    (0..input.digit_count()).map(|i| input.box_text(i).to_string()).collect()
}

#[test]
fn new_entry_has_empty_boxes() {
    let input = OtpInput::new(4);
    assert_eq!(input.digit_count(), 4);
    assert_eq!(boxes(&input), vec!["", "", "", ""]);
    assert!(!input.all_filled());
    assert_eq!(input.value(), "");
}

#[test]
fn one_digit_moves_focus_forward() {
    let mut input = OtpInput::new(4);
    let step = input.on_change(0, "7".to_string());
    assert_eq!(step.focus, Some(1));
    assert_eq!(step.completed, None);
    assert_eq!(input.box_text(0), "7");
}

#[test]
fn clearing_a_box_moves_focus_back() {
    let mut input = OtpInput::new(4);
    input.on_change(0, "1".to_string());
    input.on_change(1, "2".to_string());
    let step = input.on_change(1, String::new());
    assert_eq!(step.focus, Some(0));
    assert_eq!(step.completed, None);
    let first = input.on_change(0, "x".to_string());
    assert_eq!(first.focus, None);
    assert_eq!(input.box_text(0), "x");
}

#[test]
fn filling_the_last_box_completes_the_code() {
    let mut input = OtpInput::new(3);
    input.on_change(0, "1".to_string());
    input.on_change(1, "2".to_string());
    let step = input.on_change(2, "3".to_string());
    assert_eq!(step.focus, None);
    assert_eq!(step.completed, Some("123".to_string()));
    assert!(input.all_filled());
}

#[test]
fn pasted_digits_spread_over_the_following_boxes() {
    let mut input = OtpInput::new(6);
    let step = input.on_change(1, "4-5 6".to_string());
    assert_eq!(boxes(&input), vec!["", "4", "5", "6", "", ""]);
    assert_eq!(step.focus, Some(4));
    assert_eq!(step.completed, None);
}

#[test]
fn a_paste_reaching_the_last_box_completes_even_with_gaps() {
    let mut input = OtpInput::new(4);
    let step = input.on_change(2, "98765".to_string());
    assert_eq!(boxes(&input), vec!["", "", "9", "8"]);
    assert_eq!(step.focus, None);
    assert_eq!(step.completed, Some("98".to_string()));
}

#[test]
fn clear_empties_and_focuses_the_first_box() {
    let mut input = OtpInput::new(3);
    input.on_change(0, "123".to_string());
    assert_eq!(input.clear(), Some(0));
    assert_eq!(boxes(&input), vec!["", "", ""]);
    let mut none = OtpInput::new(0);
    assert_eq!(none.clear(), None);
}
