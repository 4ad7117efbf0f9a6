use projector::color::{blue, cyan, error, green, info, magenta, red, white, yellow};

#[test]
fn test_red_wraps_ansi() {
    let result = red("hello");
    assert_eq!(result, "\x1b[31mhello\x1b[0m");
}

#[test]
fn test_green_wraps_ansi() {
    let result = green("test");
    assert_eq!(result, "\x1b[32mtest\x1b[0m");
}

#[test]
fn test_error_includes_red_prefix() {
    let result = error("something went wrong");
    assert!(result.starts_with("\x1b[31mError: \x1b[0m"));
    assert!(result.ends_with("something went wrong"));
}

#[test]
fn test_info_includes_green_prefix() {
    let result = info("done");
    assert!(result.starts_with("\x1b[32mInfo: \x1b[0m"));
    assert!(result.ends_with("done"));
}

#[test]
fn test_empty_string() {
    assert_eq!(red(""), "\x1b[31m\x1b[0m");
    assert_eq!(blue(""), "\x1b[34m\x1b[0m");
}

#[test]
fn every_colour_has_its_code() {
    assert_eq!(yellow("x"), "\x1b[33mx\x1b[0m");
    assert_eq!(magenta("x"), "\x1b[35mx\x1b[0m");
    assert_eq!(cyan("x"), "\x1b[36mx\x1b[0m");
    assert_eq!(white("x"), "\x1b[37mx\x1b[0m");
}
