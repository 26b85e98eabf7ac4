use rvsim::args::{parse_args, ArgError};

fn args(a: &[&str]) -> Vec<String> {
    a.iter().map(|s| s.to_string()).collect()
}

#[test]
fn input_and_flags() {
    let o = parse_args(&args(&["prog.bin"])).unwrap();
    assert_eq!((o.input.as_str(), o.dbg), ("prog.bin", false));
    let o = parse_args(&args(&["-dbg", "prog.bin", "-ms"])).unwrap();
    assert_eq!((o.input.as_str(), o.dbg), ("prog.bin", true));
    let o = parse_args(&args(&["-msimple", "x"])).unwrap();
    assert_eq!((o.input.as_str(), o.dbg), ("x", false));
}

#[test]
fn argument_errors() {
    assert_eq!(parse_args(&args(&[])).err(), Some(ArgError::MissingInput));
    assert_eq!(parse_args(&args(&["-dbg"])).err(), Some(ArgError::MissingInput));
    assert_eq!(parse_args(&args(&["a", "b"])).err(), Some(ArgError::UnexpectedArgument(1)));
    assert_eq!(parse_args(&args(&["-mbig", "a"])).err(), Some(ArgError::UnknownMachine(0)));
    assert_eq!(parse_args(&args(&["a", "-m"])).err(), Some(ArgError::UnknownMachine(1)));
}
