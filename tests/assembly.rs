use log_config::config::{
    Config, ConfigError, Error, Interval, RawAppender, RawConfig, RawFilter, RawLogger, RawRoot,
};
use log_config::level::{Level, LevelFilter};
use log_config::registry::{Builtin, DeserializeError, Deserializable, Deserialize, Deserializers, Family};
use log_config::threshold::{Response, ThresholdFilter, ThresholdFilterConfig, ThresholdFilterDeserializer};

#[derive(Debug, Clone, PartialEq)]
enum Value {
    Empty,
    Level(LevelFilter),
    Path(String),
}

#[derive(Debug, PartialEq)]
enum Built {
    Console,
    File(String),
    Threshold(LevelFilter),
}

#[derive(Debug, Clone, Copy, PartialEq)]
enum Factory {
    Console,
    File,
    Threshold,
    Broken,
}

impl Deserialize for Factory {
    type Config = Value;
    type Output = Built;

    fn deserialize(&self, config: Value, _: &Deserializers<Factory>) -> Result<Built, String> {
        match (self, config) {
            (Factory::Console, _) => Ok(Built::Console),
            (Factory::File, Value::Path(p)) => Ok(Built::File(p)),
            (Factory::File, _) => Err("missing field `path`".to_string()),
            (Factory::Threshold, Value::Level(l)) => {
                let f = ThresholdFilterDeserializer.build(ThresholdFilterConfig { level: l });
                Ok(Built::Threshold(f.level()))
            }
            (Factory::Threshold, _) => Err("missing field `level`".to_string()),
            (Factory::Broken, _) => Err("broken".to_string()),
        }
    }
}

fn registry() -> Deserializers<Factory> {
    Deserializers::with_builtins(|b: Builtin| match b {
        Builtin::ConsoleAppender => Some(Factory::Console),
        Builtin::FileAppender => Some(Factory::File),
        Builtin::ThresholdFilter => Some(Factory::Threshold),
        _ => None,
    })
}

fn s(x: &str) -> String {
    x.to_string()
}

fn appender(name: &str, kind: &str, config: Value, filters: Vec<RawFilter<Value>>) -> RawAppender<Value> {
    RawAppender { name: s(name), kind: s(kind), config, filters }
}

fn filter(kind: &str, config: Value) -> RawFilter<Value> {
    RawFilter { kind: s(kind), config }
}

fn empty_raw() -> RawConfig<Value> {
    RawConfig { refresh_rate: None, root: None, appenders: vec![], loggers: vec![] }
}

#[test]
fn full_deserialize() {
    let raw = RawConfig {
        refresh_rate: Some(Interval { secs: 60, nanos: 0 }),
        appenders: vec![
            appender("console", "console", Value::Empty, vec![filter("threshold", Value::Level(LevelFilter::Debug))]),
            appender("baz", "file", Value::Path(s("/tmp/baz.log")), vec![]),
        ],
        root: Some(RawRoot { level: LevelFilter::Info, appenders: vec![s("console")] }),
        loggers: vec![RawLogger {
            name: s("foo::bar::baz"),
            level: Some(LevelFilter::Warn),
            appenders: vec![s("baz")],
            additive: Some(false),
        }],
    };
    let config = Config::parse(raw, &registry());
    println!("{:?}", config.errors());
    assert!(config.errors().is_empty());
    assert_eq!(config.refresh_rate(), Some(Interval { secs: 60, nanos: 0 }));
    let c = config.into_config();
    assert_eq!(c.appenders.len(), 2);
    assert_eq!(c.appenders[0].filters, vec![Built::Threshold(LevelFilter::Debug)]);
    assert_eq!(c.appenders[1].instance, Built::File(s("/tmp/baz.log")));
    assert_eq!(c.loggers.len(), 1);
    assert!(!c.loggers[0].additive);
}

#[test]
fn empty() {
    let config = Config::parse(empty_raw(), &registry());
    assert!(config.errors().is_empty());
}

#[test]
fn empty_document_has_default_root() {
    let config = Config::parse(empty_raw(), &registry());
    assert!(config.errors().is_empty());
    assert_eq!(config.refresh_rate(), None);
    let c = config.into_config();
    assert_eq!(c.root.level, LevelFilter::Debug);
    assert!(c.root.appenders.is_empty());
    assert!(c.appenders.is_empty());
    assert!(c.loggers.is_empty());
}

#[test]
fn console_appender_scenario() {
    let mut raw = empty_raw();
    raw.appenders = vec![appender("console", "console", Value::Empty, vec![])];
    raw.root = Some(RawRoot { level: LevelFilter::Info, appenders: vec![s("console")] });
    let config = Config::parse(raw, &registry());
    assert!(config.errors().is_empty());
    let c = config.into_config();
    assert_eq!(c.root.level, LevelFilter::Info);
    assert_eq!(c.root.appenders, vec![s("console")]);
    assert_eq!(c.appenders.len(), 1);
    assert_eq!(c.appenders[0].name, "console");
    assert_eq!(c.appenders[0].instance, Built::Console);
    assert!(c.appenders[0].filters.is_empty());
    assert!(c.loggers.is_empty());
}

#[test]
fn bogus_appender_scenario() {
    let mut raw = empty_raw();
    raw.appenders = vec![appender("a", "bogus", Value::Empty, vec![])];
    raw.root = Some(RawRoot { level: LevelFilter::Debug, appenders: vec![s("a")] });
    let config = Config::parse(raw, &registry());
    assert_eq!(config.errors().len(), 1);
    match &config.errors()[0] {
        Error::Deserialization(e) => {
            assert_eq!(e, &DeserializeError::UnknownKind { family: Family::Appender, kind: s("bogus") });
            assert!(e.message().contains("bogus"));
        }
        other => panic!("unexpected error {:?}", other),
    }
    let c = config.into_config();
    assert!(c.appenders.is_empty());
    assert_eq!(c.root.appenders, vec![s("a")]);
}

#[test]
fn unknown_appender_kind_leaves_others() {
    let mut raw = empty_raw();
    raw.appenders = vec![
        appender("x", "console", Value::Empty, vec![]),
        appender("y", "socket", Value::Empty, vec![]),
        appender("z", "file", Value::Path(s("/var/log/z")), vec![]),
    ];
    let config = Config::parse(raw, &registry());
    assert_eq!(
        config.errors(),
        &[Error::Deserialization(DeserializeError::UnknownKind { family: Family::Appender, kind: s("socket") })]
    );
    let c = config.into_config();
    let names: Vec<&str> = c.appenders.iter().map(|a| a.name.as_str()).collect();
    assert_eq!(names, vec!["x", "z"]);
}

#[test]
fn unknown_kind_message_text() {
    let e = DeserializeError::UnknownKind { family: Family::Appender, kind: s("bogus") };
    assert_eq!(e.message(), "no appender deserializer for kind `bogus` registered");
    let e = DeserializeError::UnknownKind { family: Family::Filter, kind: s("x") };
    assert_eq!(e.message(), "no filter deserializer for kind `x` registered");
    assert_eq!(DeserializeError::Build(s("bad")).message(), "bad");
}

#[test]
fn failed_filter_is_dropped_and_order_kept() {
    let mut raw = empty_raw();
    raw.appenders = vec![appender(
        "console",
        "console",
        Value::Empty,
        vec![
            filter("threshold", Value::Level(LevelFilter::Error)),
            filter("threshold", Value::Empty),
            filter("threshold", Value::Level(LevelFilter::Trace)),
        ],
    )];
    let config = Config::parse(raw, &registry());
    assert_eq!(
        config.errors(),
        &[Error::Deserialization(DeserializeError::Build(s("missing field `level`")))]
    );
    let c = config.into_config();
    assert_eq!(c.appenders.len(), 1);
    assert_eq!(
        c.appenders[0].filters,
        vec![Built::Threshold(LevelFilter::Error), Built::Threshold(LevelFilter::Trace)]
    );
}

#[test]
fn unknown_filter_kind_is_recorded() {
    let mut raw = empty_raw();
    raw.appenders = vec![appender("c", "console", Value::Empty, vec![filter("regex", Value::Empty)])];
    let config = Config::parse(raw, &registry());
    assert_eq!(
        config.errors(),
        &[Error::Deserialization(DeserializeError::UnknownKind { family: Family::Filter, kind: s("regex") })]
    );
    let c = config.into_config();
    assert_eq!(c.appenders.len(), 1);
    assert!(c.appenders[0].filters.is_empty());
}

#[test]
fn failed_appender_builds_no_filters() {
    let mut raw = empty_raw();
    raw.appenders = vec![appender("f", "file", Value::Empty, vec![filter("regex", Value::Empty)])];
    let config = Config::parse(raw, &registry());
    assert_eq!(
        config.errors(),
        &[Error::Deserialization(DeserializeError::Build(s("missing field `path`")))]
    );
    assert!(config.into_config().appenders.is_empty());
}

fn mixed_raw() -> RawConfig<Value> {
    RawConfig {
        refresh_rate: None,
        root: None,
        appenders: vec![
            appender("a", "console", Value::Empty, vec![filter("nope", Value::Empty)]),
            appender("b", "bogus", Value::Empty, vec![]),
        ],
        loggers: vec![RawLogger { name: s("m"), level: None, appenders: vec![s("a")], additive: None }],
    }
}

#[test]
fn parse_twice_gives_equal_results() {
    let reg = registry();
    let first = Config::parse(mixed_raw(), &reg);
    let second = Config::parse(mixed_raw(), &reg);
    assert_eq!(first.errors(), second.errors());
    let (c1, c2) = (first.into_config(), second.into_config());
    assert_eq!(c1.appenders.len(), c2.appenders.len());
    for (x, y) in c1.appenders.iter().zip(c2.appenders.iter()) {
        assert_eq!(x.name, y.name);
        assert_eq!(x.instance, y.instance);
        assert_eq!(x.filters, y.filters);
    }
    assert_eq!(c1.loggers.len(), c2.loggers.len());
    assert_eq!(c1.loggers[0].name, c2.loggers[0].name);
}

#[test]
fn reregistering_a_kind_uses_the_later_factory() {
    let mut reg: Deserializers<Factory> = Deserializers::new();
    reg.insert(Family::Appender, "console", Factory::Broken);
    reg.insert(Family::Appender, "console", Factory::Console);
    assert_eq!(reg.get(Family::Appender, "console"), Some(&Factory::Console));
    let r = reg.deserialize(Family::Appender, "console", Value::Empty);
    assert_eq!(r, Ok(Built::Console));
    reg.insert(Family::Appender, "console", Factory::Broken);
    let r = reg.deserialize(Family::Appender, "console", Value::Empty);
    assert_eq!(r, Err(DeserializeError::Build(s("broken"))));
}

#[test]
fn families_do_not_share_kinds() {
    let mut reg: Deserializers<Factory> = Deserializers::new();
    reg.insert(Family::Filter, "console", Factory::Broken);
    assert_eq!(reg.get(Family::Appender, "console"), None);
    let r = reg.deserialize(Family::Appender, "console", Value::Empty);
    assert_eq!(r, Err(DeserializeError::UnknownKind { family: Family::Appender, kind: s("console") }));
}

#[test]
fn builtins_register_only_what_is_provided() {
    let reg = registry();
    assert_eq!(reg.get(Family::Appender, "console"), Some(&Factory::Console));
    assert_eq!(reg.get(Family::Appender, "file"), Some(&Factory::File));
    assert_eq!(reg.get(Family::Filter, "threshold"), Some(&Factory::Threshold));
    assert_eq!(reg.get(Family::Appender, "rolling_file"), None);
    assert_eq!(reg.get(Family::Encoder, "pattern"), None);
    assert_eq!(reg.get(Family::Filter, "console"), None);
}

#[test]
fn duplicate_names_are_reported() {
    let raw = RawConfig {
        refresh_rate: None,
        root: None,
        appenders: vec![
            appender("a", "console", Value::Empty, vec![]),
            appender("a", "file", Value::Path(s("/p")), vec![]),
        ],
        loggers: vec![
            RawLogger { name: s("m"), level: Some(LevelFilter::Warn), appenders: vec![], additive: None },
            RawLogger { name: s("m"), level: None, appenders: vec![], additive: Some(false) },
        ],
    };
    let config = Config::parse(raw, &registry());
    assert_eq!(
        config.errors(),
        &[
            Error::Config(ConfigError::DuplicateAppenderName(s("a"))),
            Error::Config(ConfigError::DuplicateLoggerName(s("m"))),
        ]
    );
    let c = config.into_config();
    assert_eq!(c.appenders.len(), 1);
    assert_eq!(c.appenders[0].instance, Built::Console);
    assert_eq!(c.loggers.len(), 1);
    assert_eq!(c.loggers[0].level, Some(LevelFilter::Warn));
    assert!(c.loggers[0].additive);
}

#[test]
fn logger_additivity_defaults_to_true() {
    let mut raw = empty_raw();
    raw.loggers = vec![
        RawLogger { name: s("p"), level: None, appenders: vec![s("x")], additive: None },
        RawLogger { name: s("q"), level: Some(LevelFilter::Off), appenders: vec![], additive: Some(false) },
    ];
    let c = Config::parse(raw, &registry()).into_config();
    assert!(c.loggers[0].additive);
    assert_eq!(c.loggers[0].level, None);
    assert_eq!(c.loggers[0].appenders, vec![s("x")]);
    assert!(!c.loggers[1].additive);
    assert_eq!(c.loggers[1].level, Some(LevelFilter::Off));
}

#[test]
fn threshold_filter_rejects_more_verbose_records() {
    let f = ThresholdFilter::new(LevelFilter::Warn);
    assert_eq!(f.level(), LevelFilter::Warn);
    assert_eq!(f.filter(Level::Error), Response::Neutral);
    assert_eq!(f.filter(Level::Warn), Response::Neutral);
    assert_eq!(f.filter(Level::Info), Response::Reject);
    assert_eq!(f.filter(Level::Trace), Response::Reject);
    let off = ThresholdFilter::new(LevelFilter::Off);
    assert_eq!(off.filter(Level::Error), Response::Reject);
}

#[test]
fn threshold_deserializer_builds_at_level() {
    let reg: Deserializers<ThresholdFilterDeserializer> = Deserializers::new();
    let r = ThresholdFilterDeserializer.deserialize(ThresholdFilterConfig { level: LevelFilter::Info }, &reg);
    assert_eq!(r, Ok(ThresholdFilter::new(LevelFilter::Info)));
}

#[test]
fn level_filter_admits_up_to_threshold() {
    assert!(LevelFilter::Info.enabled(Level::Info));
    assert!(LevelFilter::Info.enabled(Level::Error));
    assert!(!LevelFilter::Info.enabled(Level::Debug));
    assert!(!LevelFilter::Off.enabled(Level::Error));
    assert_eq!(Level::Trace.verbosity(), 5);
    assert_eq!(LevelFilter::Off.verbosity(), 0);
}

#[test]
fn family_and_builtin_names() {
    assert_eq!(Family::Appender.name(), "appender");
    assert_eq!(Family::Trigger.name(), "trigger");
    assert_eq!(Builtin::FixedWindowRoller.kind(), "fixed_window");
    assert_eq!(Builtin::FixedWindowRoller.family(), Family::Roller);
    assert_eq!(log_config::registry::builtins().len(), 10);
}

#[test]
fn error_messages() {
    let e = Error::Deserialization(DeserializeError::UnknownKind { family: Family::Appender, kind: s("bogus") });
    assert_eq!(
        e.message(),
        "error deserializing component: no appender deserializer for kind `bogus` registered"
    );
    let e = Error::Deserialization(DeserializeError::Build(s("bad path")));
    assert_eq!(e.message(), "error deserializing component: bad path");
    assert_eq!(
        Error::Config(ConfigError::DuplicateAppenderName(s("a"))).message(),
        "error creating config: duplicate appender name `a`"
    );
    assert_eq!(
        Error::Config(ConfigError::DuplicateLoggerName(s("m"))).message(),
        "error creating config: duplicate logger name `m`"
    );
}

#[test]
fn threshold_filter_names_its_family() {
    assert_eq!(<ThresholdFilter as Deserializable>::name(), "filter");
}
