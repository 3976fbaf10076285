use oma_apt::config::{init_config_system, split, Config};
use oma_apt::text::{
    append_chars, copy_chars, ends_with_exec, equal_text, fold_char, from_chars, put, put_bool, put_decimal,
    bytes_str, put_signed, same_text_exec, size_unit, starts_with_exec, text_before_exec, to_chars, SizeUnit,
};

fn chars(s: &str) -> Vec<char> {
    s.chars().collect()
}

#[test]
fn keys_are_split_at_double_colons() {
    let parts = |s: &str| -> Vec<String> { split(&chars(s)).iter().map(|p| p.iter().collect()).collect() };
    assert_eq!(parts("APT::Architecture"), vec!["APT", "Architecture"]);
    assert_eq!(parts("Dir"), vec!["Dir"]);
    assert_eq!(parts(""), vec![""]);
    assert_eq!(parts("a::"), vec!["a", ""]);
    assert_eq!(parts("::a"), vec!["", "a"]);
    assert_eq!(parts("a:b"), vec!["a:b"]);
    assert_eq!(parts("a:::b"), vec!["a", ":b"]);
    assert_eq!(parts("a::::b"), vec!["a", "", "b"]);
    assert_eq!(parts("a::b::c"), vec!["a", "b", "c"]);
    assert_eq!(parts(":"), vec![":"]);
    assert_eq!(parts("::"), vec!["", ""]);
}

#[test]
fn tags_are_found_without_regard_to_case() {
    let mut config = Config::new_clear();
    config.clear_all();
    config.set("Acquire::Retries", "3");
    assert_eq!(config.find("acquire::retries", ""), "3");
    assert_eq!(config.find("ACQUIRE::RETRIES", ""), "3");
    config.set("acquire::RETRIES", "4");
    assert_eq!(config.find("Acquire::Retries", ""), "4");
    assert_eq!(config.dump(), "Acquire \"\";\nAcquire::Retries \"4\";\n");
    assert!(config.contains("Acquire"));
    assert!(!config.contains("Acquire::"));
    assert!(!config.contains("Acquire::Retries::x"));
    assert_eq!(config.get("Acquire::Retries"), Some("4".to_string()));
    assert_eq!(config.get("Acquire"), None);
    assert_eq!(config.get("Missing"), None);
    assert_eq!(config.find("Acquire", "fallback"), "fallback");
}

#[test]
fn an_empty_configuration_dumps_nothing() {
    let mut config = Config::new();
    config.clear_all();
    assert_eq!(config.dump(), "");
    assert!(!config.contains("APT"));
    assert!(config.find_vector("APT").is_empty());
    assert!(config.get_architectures().is_empty());
    assert!(config.root_tree().child().is_none());
    assert!(config.root_tree().sibling().is_none());
    assert!(config.root_tree().tag().is_none());
    assert!(config.root_tree().value().is_none());
}

#[test]
fn the_defaults_are_stored_once() {
    let config = Config::new();
    assert_eq!(config.find("APT::Architecture", ""), "amd64");
    assert_eq!(config.find_vector("APT::Build-Essential"), vec!["build-essential"]);
    assert!(config.bool("APT::Install-Recommends", false));
    assert!(!config.bool("APT::Install-Suggests", true));
    assert_eq!(config.integer("APT::Install-Recommends", 7), 1);
    assert_eq!(config.find("Dir", ""), "/");
    assert_eq!(config.file("Dir::State::lists", ""), "/var/lib/apt/lists/");
    assert_eq!(config.file("Dir::State::status", ""), "/var/lib/dpkg/status");
    assert_eq!(config.file("Dir::Cache::pkgcache", ""), "/var/cache/apt/pkgcache.bin");
    assert_eq!(config.dir("Dir::Cache::archives", ""), "/var/cache/apt/archives/");
    assert_eq!(config.dir("Dir::Etc", ""), "/etc/apt/");
    assert_eq!(config.file("Dir::Etc::main", ""), "/etc/apt/apt.conf");
    assert_eq!(config.dir("Dir::Log", ""), "/var/log/apt/");
    // a value that was set stays
    let mut config = Config::new();
    config.clear_all();
    config.set("APT::Architecture", "riscv64");
    init_config_system(&mut config);
    assert_eq!(config.find("APT::Architecture", ""), "riscv64");
    assert_eq!(config.find("Dir::Etc::sourcelist", ""), "sources.list");
    config.set_default("Dir::Etc::sourcelist", "other");
    assert_eq!(config.find("Dir::Etc::sourcelist", ""), "sources.list");
    config.set_default("Dir::Etc::trusted", "trusted.gpg");
    assert_eq!(config.find("Dir::Etc::trusted", ""), "trusted.gpg");
    // where APT holds a value, the system counts as brought up
    let mut config = Config::new();
    config.clear_all();
    config.set("APT", "x");
    init_config_system(&mut config);
    assert!(!config.contains("Dir"));
    // the list of build essentials is not filled twice
    let mut config = Config::new();
    init_config_system(&mut config);
    assert_eq!(config.find_vector("APT::Build-Essential"), vec!["build-essential"]);
}

#[test]
fn the_dump_lists_parents_before_children() {
    let mut config = Config::new();
    config.clear_all();
    config.set("b::c", "1");
    config.set("a", "2");
    config.set("b::a::x", "3");
    config.set("b", "4");
    config.set_vector("l", &vec!["p", "q"]);
    assert_eq!(
        config.dump(),
        "b \"4\";\nb::c \"1\";\nb::a \"\";\nb::a::x \"3\";\na \"2\";\nl \"\";\nl:: \"p\";\nl:: \"q\";\n"
    );
}

#[test]
fn values_as_switches() {
    let mut config = Config::new();
    for (text, default, expected) in [
        ("1", false, true),
        ("0", true, false),
        ("yes", false, true),
        ("YES", false, true),
        ("true", false, true),
        ("with", false, true),
        ("on", false, true),
        ("Enable", false, true),
        ("no", true, false),
        ("False", true, false),
        ("without", true, false),
        ("off", true, false),
        ("disable", true, false),
        ("2", true, true),
        ("2", false, false),
        ("maybe", true, true),
        ("maybe", false, false),
        ("01", false, false),
        (" yes", false, false),
    ] {
        config.set("t::switch", text);
        assert_eq!(config.bool("t::switch", default), expected, "{:?}", text);
    }
    config.set("t::switch", "");
    assert!(config.bool("t::switch", true));
    assert!(!config.bool("t::switch", false));
    assert!(config.bool("t::missing", true));
    assert!(!config.bool("t::missing", false));
}

#[test]
fn values_as_numbers() {
    let mut config = Config::new();
    for (text, expected) in [
        ("0", 0),
        ("42", 42),
        ("-42", -42),
        ("+42", 42),
        ("007", 7),
        ("12abc", 12),
        ("2147483647", i32::MAX),
        ("2147483648", i32::MAX),
        ("99999999999999999999", i32::MAX),
        ("-2147483648", i32::MIN),
        ("-2147483649", i32::MIN),
        ("-99999999999999999999", i32::MIN),
        ("abc", 20),
        ("-", 20),
        ("+", 20),
        (" 1", 20),
        ("--1", 20),
        ("", 20),
    ] {
        config.set("t::number", text);
        assert_eq!(config.integer("t::number", 20), expected, "{:?}", text);
    }
    assert_eq!(config.integer("t::missing", -5), -5);
}

#[test]
fn files_are_joined_to_their_parents() {
    let mut config = Config::new();
    config.clear_all();
    config.set("Dir", "/srv");
    config.set("Dir::Etc", "etc/apt/");
    config.set("Dir::Etc::main", "apt.conf");
    config.set("Dir::Etc::abs", "/elsewhere/x");
    config.set("Dir::Etc::home", "~/x");
    config.set("Dir::Etc::here", "./x");
    config.set("Dir::Etc::up", "../x");
    config.set("Dir::Etc::null", "/dev/null/ignored");
    config.set("Dir::Etc::dot", ".x");
    config.set("Dir::None::deep", "d");
    config.set("Top", "relative");
    assert_eq!(config.file("Dir::Etc::main", ""), "/srv/etc/apt/apt.conf");
    assert_eq!(config.dir("Dir::Etc::main", ""), "/srv/etc/apt/apt.conf/");
    assert_eq!(config.file("Dir::Etc", ""), "/srv/etc/apt/");
    assert_eq!(config.dir("Dir::Etc", ""), "/srv/etc/apt/");
    assert_eq!(config.file("Dir::Etc::abs", ""), "/elsewhere/x");
    assert_eq!(config.file("Dir::Etc::home", ""), "~/x");
    assert_eq!(config.file("Dir::Etc::here", ""), "./x");
    assert_eq!(config.file("Dir::Etc::up", ""), "../x");
    assert_eq!(config.file("Dir::Etc::null", ""), "/dev/null");
    assert_eq!(config.dir("Dir::Etc::null", ""), "/dev/null");
    assert_eq!(config.file("Dir::Etc::dot", ""), "/srv/etc/apt/.x");
    // an item without a value between is passed over
    assert_eq!(config.file("Dir::None::deep", ""), "/srv/d");
    assert_eq!(config.file("Top", ""), "relative");
    assert_eq!(config.dir("Top", ""), "relative/");
    assert_eq!(config.file("Missing", "fallback"), "fallback");
    assert_eq!(config.dir("Missing", "fallback"), "fallback/");
    assert_eq!(config.dir("Missing", ""), "");
    assert_eq!(config.file("Dir::None", "x"), "x");
    // everything lies under the root directory
    config.set("RootDir", "/chroot");
    assert_eq!(config.file("Dir::Etc::main", ""), "/chroot//srv/etc/apt/apt.conf");
    assert_eq!(config.file("Missing", "fallback"), "/chroot/fallback");
    config.set("RootDir", "/chroot/");
    assert_eq!(config.file("Top", ""), "/chroot/relative");
}

#[test]
fn lists() {
    let mut config = Config::new();
    config.set_vector("my::list", &vec!["a", "b"]);
    config.set_vector("my::list::", &vec!["c", "b"]);
    assert_eq!(config.find_vector("my::list"), vec!["a", "b", "c", "b"]);
    config.clear_value("my::list", "b");
    assert_eq!(config.find_vector("my::list"), vec!["a", "c"]);
    config.clear_value("my::list", "zzz");
    config.clear_value("my::missing", "a");
    assert_eq!(config.find_vector("my::list"), vec!["a", "c"]);
    // named children are part of the list, too
    config.set("my::list::named", "n");
    assert_eq!(config.find_vector("my::list"), vec!["a", "c", "n"]);
    config.set("my::list", "value");
    config.clear("my::list");
    assert!(config.find_vector("my::list").is_empty());
    assert!(config.contains("my::list"));
    assert_eq!(config.find("my::list", "gone"), "gone");
    assert!(!config.contains("my::list::named"));
    config.clear("my::missing");
    assert!(!config.contains("my::missing"));
    config.set_vector("empty", &vec![]);
    assert!(!config.contains("empty"));
}

#[test]
fn architectures() {
    let mut config = Config::new();
    assert_eq!(config.get_architectures(), vec!["amd64"]);
    config.set_vector("APT::Architectures", &vec!["i386", "amd64", "arm64"]);
    assert_eq!(config.get_architectures(), vec!["amd64", "i386", "arm64"]);
    config.set("APT::Architecture", "");
    assert_eq!(config.get_architectures(), vec!["i386", "amd64", "arm64"]);
}

#[test]
fn the_tree_is_walked_by_child_and_sibling() {
    let mut config = Config::new();
    config.clear_all();
    config.set("a::x", "1");
    config.set("b", "2");
    config.set("a::y", "3");
    let root = config.root_tree();
    assert_eq!(root.tag(), None);
    assert!(root.sibling().is_none());
    let a = root.child().unwrap();
    assert_eq!(a.tag(), Some("a".to_string()));
    assert_eq!(a.value(), None);
    let b = a.sibling().unwrap();
    assert_eq!(b.tag(), Some("b".to_string()));
    assert_eq!(b.value(), Some("2".to_string()));
    assert!(b.sibling().is_none());
    assert!(b.child().is_none());
    let x = a.child().unwrap();
    assert_eq!((x.tag(), x.value()), (Some("x".to_string()), Some("1".to_string())));
    let y = x.sibling().unwrap();
    assert_eq!((y.tag(), y.value()), (Some("y".to_string()), Some("3".to_string())));
    assert!(y.sibling().is_none());
}

#[test]
fn sizes_and_their_units() {
    assert_eq!(size_unit(0), SizeUnit::Bytes);
    assert_eq!(size_unit(1000), SizeUnit::Bytes);
    assert_eq!(size_unit(1001), SizeUnit::Kilo);
    assert_eq!(size_unit(1_000_000), SizeUnit::Kilo);
    assert_eq!(size_unit(1_000_001), SizeUnit::Mega);
    assert_eq!(size_unit(i64::MAX), SizeUnit::Mega);
    assert_eq!(size_unit(-1), SizeUnit::Bytes);
    assert_eq!(size_unit(-5_000_000), SizeUnit::Bytes);
    assert_eq!(bytes_str(0), "0 B");
    assert_eq!(bytes_str(999), "999 B");
    assert_eq!(bytes_str(1000), "1000 B");
    assert_eq!(bytes_str(-12), "-12 B");
    assert_eq!(bytes_str(i32::MIN as i64), "-2147483648 B");
}

#[test]
fn text_helpers() {
    assert_eq!(to_chars("héllo"), chars("héllo"));
    assert_eq!(from_chars(&chars("héllo")), "héllo");
    assert_eq!(copy_chars(&chars("abc")), chars("abc"));
    assert_eq!(fold_char('A'), 'a' as u32);
    assert_eq!(fold_char('Z'), 'z' as u32);
    assert_eq!(fold_char('a'), 'a' as u32);
    assert_eq!(fold_char('['), '[' as u32);
    assert_eq!(fold_char('@'), '@' as u32);
    assert_eq!(fold_char('É'), 'É' as u32);
    assert!(same_text_exec(&chars("AbC"), &chars("aBc")));
    assert!(!same_text_exec(&chars("abc"), &chars("abd")));
    assert!(!same_text_exec(&chars("abc"), &chars("ab")));
    assert!(equal_text(&chars("abc"), &chars("abc")));
    assert!(!equal_text(&chars("abc"), &chars("abC")));
    assert!(starts_with_exec(&chars("file:/x"), &chars("file:")));
    assert!(!starts_with_exec(&chars("fil"), &chars("file:")));
    assert!(starts_with_exec(&chars("x"), &chars("")));
    assert!(ends_with_exec(&chars("/dev/null"), &chars("null")));
    assert!(!ends_with_exec(&chars("ll"), &chars("null")));
    assert!(!ends_with_exec(&chars("/dev/nul"), &chars("null")));
    let mut out = chars("a");
    append_chars(&mut out, &chars("bc"));
    put(&mut out, "-");
    put_decimal(&mut out, 0);
    put(&mut out, "-");
    put_decimal(&mut out, 1234567890);
    put(&mut out, "-");
    put_decimal(&mut out, u64::MAX);
    put_bool(&mut out, true);
    put_bool(&mut out, false);
    assert_eq!(from_chars(&out), "abc-0-1234567890-18446744073709551615truefalse");
    let mut out = Vec::new();
    put_signed(&mut out, -1);
    put_signed(&mut out, 0);
    put_signed(&mut out, 990);
    put_signed(&mut out, i64::MIN);
    put_signed(&mut out, i64::MAX);
    assert_eq!(from_chars(&out), "-10990-92233720368547758089223372036854775807");
    assert!(text_before_exec(&chars("a"), &chars("b")));
    assert!(text_before_exec(&chars("a"), &chars("ab")));
    assert!(text_before_exec(&chars(""), &chars("a")));
    assert!(text_before_exec(&chars("B"), &chars("a")));
    assert!(!text_before_exec(&chars("a"), &chars("a")));
    assert!(!text_before_exec(&chars("b"), &chars("a")));
    assert!(!text_before_exec(&chars("ab"), &chars("a")));
    assert!(!text_before_exec(&chars(""), &chars("")));
}
