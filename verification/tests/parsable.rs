use jockey::assign_multi;
use jockey::parse_arg_flag;
use jockey::parse_arg_multi;
use jockey::parse_arg_optional;
use jockey::parse_arg_string;

#[test]
pub fn test_parsable_for_string() {
    let args_vec = vec!["--foo", "bar"];
    let args: Vec<String> = args_vec.iter().map(|x| x.to_string()).collect();

    let (result, _next) = parse_arg_string(&args, 0, &"--foo".to_string());
    assert_eq!(result.parsed, Some(Ok("bar".into())));
    assert_eq!(result.blacklist, Some("--foo".into()));
}

#[test]
pub fn test_parsable_for_bool() {
    let args_vec = vec!["--foo"];
    let args: Vec<String> = args_vec.iter().map(|x| x.to_string()).collect();

    let (result, _next) = parse_arg_flag(&args, 0, &"--foo".to_string());
    assert_eq!(result.parsed, Some(Ok(true)));
    assert_eq!(result.blacklist, Some("--foo".into()));
}

#[test]
pub fn test_parsable_for_option() {
    let args_vec = vec!["--foo", "bar"];
    let args: Vec<String> = args_vec.iter().map(|x| x.to_string()).collect();

    let (result, _next) = parse_arg_optional(&args, 0, &"--foo".to_string());
    assert_eq!(result.parsed, Some(Ok(Some("bar".into()))));
    assert_eq!(result.blacklist, Some("--foo".into()));
}

#[test]
pub fn test_parsable_for_vec() {
    let args_vec = vec!["--foo", "bar", "--foo", "baz"];
    let args: Vec<String> = args_vec.iter().map(|x| x.to_string()).collect();

    let (tmp1, next) = parse_arg_multi(&args, 0, &"--foo".to_string());
    let (tmp2, _next) = parse_arg_multi(&args, next, &"--foo".to_string());

    let result = assign_multi(tmp1.parsed.unwrap().unwrap(), tmp2.parsed.unwrap().unwrap());

    assert_eq!(result, vec!["bar".to_string(), "baz".to_string()]);
    assert_eq!(tmp1.blacklist, None);
    assert_eq!(tmp2.blacklist, None);
}
