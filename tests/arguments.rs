use ndvi_engine::args::{kind_of, parse_arguments, split_arg, without_quotes, ArgError, ArgKind};

fn args(xs: &[&str]) -> Vec<String> {
    xs.iter().map(|s| s.to_string()).collect()
}

fn chars(s: &str) -> Vec<char> {
    s.chars().collect()
}

#[test]
fn reads_every_flag() {
    let s = parse_arguments(&args(&["--nir=band4.dep", "--red", "band3.dep", "-o=output.dep", "--clip=1.0", "--osavi"])).unwrap();
    assert_eq!(s.nir_file, "band4.dep");
    assert_eq!(s.red_file, "band3.dep");
    assert_eq!(s.output_file, "output.dep");
    assert_eq!(s.clip, Some("1.0".to_string()));
    assert!(s.osavi);
}

#[test]
fn defaults_when_flags_are_absent() {
    let s = parse_arguments(&args(&["-v"])).unwrap();
    assert_eq!(s.nir_file, "");
    assert_eq!(s.red_file, "");
    assert_eq!(s.output_file, "");
    assert_eq!(s.clip, None);
    assert!(!s.osavi);
}

#[test]
fn flags_ignore_case_and_quotes() {
    let s = parse_arguments(&args(&["-NIR=\"a b.tif\"", "--Output='c.tif'", "-Red", "'d.tif'"])).unwrap();
    assert_eq!(s.nir_file, "a b.tif");
    assert_eq!(s.output_file, "c.tif");
    // a value taken from the next argument is kept as written
    assert_eq!(s.red_file, "'d.tif'");
}

#[test]
fn later_flag_wins() {
    let s = parse_arguments(&args(&["--nir=a", "--nir=b"])).unwrap();
    assert_eq!(s.nir_file, "b");
}

#[test]
fn value_stops_at_second_equals() {
    let s = parse_arguments(&args(&["--output=x=y"])).unwrap();
    assert_eq!(s.output_file, "x");
}

#[test]
fn argument_errors() {
    assert_eq!(parse_arguments(&Vec::new()).err(), Some(ArgError::NoArguments));
    assert_eq!(parse_arguments(&args(&["--nir=a", "--red"])).err(), Some(ArgError::MissingValue));
}

#[test]
fn splitting_and_kinds() {
    let (key, value) = split_arg("--clip=2.5");
    assert_eq!(key, chars("--clip"));
    assert_eq!(value, Some(chars("2.5")));
    let (key, value) = split_arg("--osavi");
    assert_eq!(key, chars("--osavi"));
    assert_eq!(value, None);
    assert_eq!(without_quotes("'a\"b'"), chars("ab"));
    assert_eq!(kind_of(&chars("-o")), ArgKind::Output);
    assert_eq!(kind_of(&chars("--CLIP")), ArgKind::Clip);
    assert_eq!(kind_of(&chars("--nirx")), ArgKind::Other);
    assert_eq!(kind_of(&chars("-Osavi")), ArgKind::Osavi);
}
