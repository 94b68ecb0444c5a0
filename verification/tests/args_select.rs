use hexdump::args::select_path;

#[test]
fn path_selected_verbatim() {
    let args = vec![String::from("prog"), String::from("file.bin")];
    assert_eq!(select_path(&args), Some(String::from("file.bin")));
}

#[test]
fn missing_argument_rejected() {
    let args = vec![String::from("prog")];
    assert_eq!(select_path(&args), None);
}

#[test]
fn extra_arguments_rejected() {
    let args = vec![String::from("prog"), String::from("a"), String::from("b")];
    assert_eq!(select_path(&args), None);
}
