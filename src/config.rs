use vstd::prelude::*;
use vstd::string::StringExecFns;

use crate::level::LevelFilter;
use crate::registry::{DeserializeError, DeserializeErrorView, Deserialize, Deserializers, Family};

verus! {

/// The text formats a configuration document may be written in.
#[derive(Clone, Copy, Debug, PartialEq, Eq, Structural)]
pub enum Format {
    Yaml,
    Json,
    Toml,
}

/// A time span, as whole seconds and nanoseconds.
#[derive(Clone, Copy, Debug, PartialEq, Eq, Structural)]
pub struct Interval {
    pub secs: u64,
    pub nanos: u32,
}

/// A filter as written in the document: its kind and its own configuration.
pub struct RawFilter<V> {
    pub kind: String,
    pub config: V,
}

/// An appender as written in the document.
pub struct RawAppender<V> {
    pub name: String,
    pub kind: String,
    pub config: V,
    pub filters: Vec<RawFilter<V>>,
}

/// The root logger as written in the document.
pub struct RawRoot {
    pub level: LevelFilter,
    pub appenders: Vec<String>,
}

/// A logger as written in the document.
pub struct RawLogger {
    pub name: String,
    pub level: Option<LevelFilter>,
    pub appenders: Vec<String>,
    pub additive: Option<bool>,
}

/// A whole document, after the text has been parsed.
pub struct RawConfig<V> {
    pub refresh_rate: Option<Interval>,
    pub root: Option<RawRoot>,
    pub appenders: Vec<RawAppender<V>>,
    pub loggers: Vec<RawLogger>,
}

/// The root logger of an assembled configuration.
pub struct Root {
    pub level: LevelFilter,
    pub appenders: Vec<String>,
}

/// A built appender with the filters that were built for it, in order.
pub struct Appender<O> {
    pub name: String,
    pub instance: O,
    pub filters: Vec<O>,
}

/// A logger of an assembled configuration.
pub struct Logger {
    pub name: String,
    pub level: Option<LevelFilter>,
    pub appenders: Vec<String>,
    pub additive: bool,
}

/// The assembled configuration.
pub struct Assembled<O> {
    pub root: Root,
    pub appenders: Vec<Appender<O>>,
    pub loggers: Vec<Logger>,
}

/// A structural rule that the assembled configuration broke.
#[derive(Debug, PartialEq, Eq)]
pub enum ConfigError {
    DuplicateAppenderName(String),
    DuplicateLoggerName(String),
}

/// A non-fatal error met while assembling a configuration.
#[derive(Debug, PartialEq, Eq)]
pub enum Error {
    /// A component could not be built.
    Deserialization(DeserializeError),
    /// The assembled configuration broke a structural rule.
    Config(ConfigError),
}

/// An appender after its kind and its filters' kinds were looked up and built.
pub struct Resolved<O> {
    pub name: String,
    pub outcome: Result<O, DeserializeError>,
    pub filters: Vec<Result<O, DeserializeError>>,
}

/// A configuration assembled from a document, with the errors met on the way.
pub struct Config<O> {
    refresh_rate: Option<Interval>,
    config: Assembled<O>,
    errors: Vec<Error>,
}

// ---- mathematical forms ----

pub open spec fn names_view(v: Seq<String>) -> Seq<Seq<char>> {
    v.map_values(|s: String| s@)
}

pub struct RootView {
    pub level: LevelFilter,
    pub appenders: Seq<Seq<char>>,
}

pub struct AppenderView<O> {
    pub name: Seq<char>,
    pub instance: O,
    pub filters: Seq<O>,
}

pub struct LoggerView {
    pub name: Seq<char>,
    pub level: Option<LevelFilter>,
    pub appenders: Seq<Seq<char>>,
    pub additive: bool,
}

pub struct AssembledView<O> {
    pub root: RootView,
    pub appenders: Seq<AppenderView<O>>,
    pub loggers: Seq<LoggerView>,
}

pub enum ErrorView {
    Deserialization(DeserializeErrorView),
    DuplicateAppenderName(Seq<char>),
    DuplicateLoggerName(Seq<char>),
}

pub struct ResolvedView<O> {
    pub name: Seq<char>,
    pub outcome: Result<O, DeserializeErrorView>,
    pub filters: Seq<Result<O, DeserializeErrorView>>,
}

pub open spec fn outcome_view<O>(r: Result<O, DeserializeError>) -> Result<O, DeserializeErrorView> {
    match r {
        Ok(o) => Ok(o),
        Err(e) => Err(e@),
    }
}

impl View for Root {
    type V = RootView;

    open spec fn view(&self) -> RootView {
        RootView { level: self.level, appenders: names_view(self.appenders@) }
    }
}

impl<O> View for Appender<O> {
    type V = AppenderView<O>;

    open spec fn view(&self) -> AppenderView<O> {
        AppenderView { name: self.name@, instance: self.instance, filters: self.filters@ }
    }
}

impl View for Logger {
    type V = LoggerView;

    open spec fn view(&self) -> LoggerView {
        LoggerView {
            name: self.name@,
            level: self.level,
            appenders: names_view(self.appenders@),
            additive: self.additive,
        }
    }
}

impl<O> View for Assembled<O> {
    type V = AssembledView<O>;

    open spec fn view(&self) -> AssembledView<O> {
        AssembledView {
            root: self.root@,
            appenders: self.appenders@.map_values(|a: Appender<O>| a@),
            loggers: self.loggers@.map_values(|l: Logger| l@),
        }
    }
}

impl View for ConfigError {
    type V = ErrorView;

    open spec fn view(&self) -> ErrorView {
        match self {
            ConfigError::DuplicateAppenderName(n) => ErrorView::DuplicateAppenderName(n@),
            ConfigError::DuplicateLoggerName(n) => ErrorView::DuplicateLoggerName(n@),
        }
    }
}

impl View for Error {
    type V = ErrorView;

    open spec fn view(&self) -> ErrorView {
        match self {
            Error::Deserialization(e) => ErrorView::Deserialization(e@),
            Error::Config(c) => c@,
        }
    }
}

impl ErrorView {
    /// The text of an error.
    pub open spec fn text(self) -> Seq<char> {
        match self {
            ErrorView::Deserialization(e) => "error deserializing component: "@ + e.text(),
            ErrorView::DuplicateAppenderName(n) => "error creating config: duplicate appender name `"@ + n
                + "`"@,
            ErrorView::DuplicateLoggerName(n) => "error creating config: duplicate logger name `"@ + n + "`"@,
        }
    }
}

impl Error {
    /// A human-readable description of the error.
    pub fn message(&self) -> (r: String)
        ensures
            r@ == self@.text(),
    {
        proof {
            reveal_strlit("error deserializing component: ");
            reveal_strlit("error creating config: duplicate appender name `");
            reveal_strlit("error creating config: duplicate logger name `");
            reveal_strlit("`");
        }
        match self {
            Error::Deserialization(e) => {
                let inner = e.message();
                let mut s = String::from_str("error deserializing component: ");
                s.append(inner.as_str());
                s
            },
            Error::Config(ConfigError::DuplicateAppenderName(n)) => {
                let mut s = String::from_str("error creating config: duplicate appender name `");
                s.append(n.as_str());
                s.append("`");
                s
            },
            Error::Config(ConfigError::DuplicateLoggerName(n)) => {
                let mut s = String::from_str("error creating config: duplicate logger name `");
                s.append(n.as_str());
                s.append("`");
                s
            },
        }
    }
}

pub open spec fn errors_view(v: Seq<Error>) -> Seq<ErrorView> {
    v.map_values(|e: Error| e@)
}

impl<O> View for Resolved<O> {
    type V = ResolvedView<O>;

    open spec fn view(&self) -> ResolvedView<O> {
        ResolvedView {
            name: self.name@,
            outcome: outcome_view(self.outcome),
            filters: self.filters@.map_values(|r: Result<O, DeserializeError>| outcome_view(r)),
        }
    }
}

pub open spec fn resolved_view<O>(v: Seq<Resolved<O>>) -> Seq<ResolvedView<O>> {
    v.map_values(|r: Resolved<O>| r@)
}

// ---- what resolution may return ----

/// What the registry may hand back for a component of `family` and `kind`:
/// the unknown-kind error exactly when nothing is registered, and otherwise a
/// component or a build error (which one, `factory_gave` says).
pub open spec fn outcome_fits<D, O>(
    reg: &Deserializers<D>,
    family: Family,
    kind: Seq<char>,
    out: Result<O, DeserializeErrorView>,
) -> bool {
    &&& !reg.registered(family, kind) <==> out == Err::<O, DeserializeErrorView>(
        DeserializeErrorView::UnknownKind(family, kind),
    )
    &&& reg.registered(family, kind) ==> (out is Ok || out->Err_0 is Build)
}

/// `res` is a possible resolution of `raw` against `reg`: the appender was
/// looked up under its kind and, only where it was built, each of its
/// filters under its own kind, in order.
pub open spec fn appender_fits<D, V, O>(
    reg: &Deserializers<D>,
    raw: RawAppender<V>,
    res: ResolvedView<O>,
) -> bool {
    &&& res.name == raw.name@
    &&& outcome_fits(reg, Family::Appender, raw.kind@, res.outcome)
    &&& res.outcome is Ok ==> {
        &&& res.filters.len() == raw.filters@.len()
        &&& forall|j: int|
            0 <= j < res.filters.len() ==> #[trigger] outcome_fits(
                reg,
                Family::Filter,
                raw.filters@[j].kind@,
                res.filters[j],
            )
    }
    &&& res.outcome is Err ==> res.filters.len() == 0
}

pub open spec fn appenders_fit<D, V, O>(
    reg: &Deserializers<D>,
    raw: Seq<RawAppender<V>>,
    res: Seq<ResolvedView<O>>,
) -> bool {
    &&& raw.len() == res.len()
    &&& forall|i: int| 0 <= i < raw.len() ==> #[trigger] appender_fits(reg, raw[i], res[i])
}

/// For a registered kind, `out` is a result the registered factory gives for
/// `config`: the component it built, or its own error message unchanged.
pub open spec fn factory_gave<D: Deserialize>(
    reg: &Deserializers<D>,
    family: Family,
    kind: Seq<char>,
    config: D::Config,
    out: Result<D::Output, DeserializeErrorView>,
) -> bool {
    reg.registered(family, kind) ==> match out {
        Ok(o) => reg@[(family, kind)].builds(config, Ok(o)),
        Err(e) => e is Build && exists|m: String|
            m@ == e->Build_0 && #[trigger] reg@[(family, kind)].builds(config, Err(m)),
    }
}

/// Each appender in `res`, and each filter of an appender that was built, has
/// the outcome its registered factory gave for its own configuration.
pub open spec fn appenders_built<D: Deserialize>(
    reg: &Deserializers<D>,
    raw: Seq<RawAppender<D::Config>>,
    res: Seq<ResolvedView<D::Output>>,
) -> bool {
    forall|i: int|
        0 <= i < raw.len() && 0 <= i < res.len() ==> {
            &&& factory_gave(reg, Family::Appender, raw[i].kind@, raw[i].config, (#[trigger] res[i]).outcome)
            &&& forall|j: int|
                0 <= j < res[i].filters.len() && 0 <= j < raw[i].filters@.len() ==> factory_gave(
                    reg,
                    Family::Filter,
                    raw[i].filters@[j].kind@,
                    raw[i].filters@[j].config,
                    #[trigger] res[i].filters[j],
                )
        }
}

// ---- what assembly computes ----

/// The components that were built, in order.
pub open spec fn filter_values<O>(fs: Seq<Result<O, DeserializeErrorView>>) -> Seq<O>
    decreases fs.len(),
{
    if fs.len() == 0 {
        Seq::empty()
    } else {
        let prev = filter_values(fs.drop_last());
        match fs.last() {
            Ok(o) => prev.push(o),
            Err(_) => prev,
        }
    }
}

/// The errors of the components that could not be built, in order.
pub open spec fn filter_errors<O>(fs: Seq<Result<O, DeserializeErrorView>>) -> Seq<ErrorView>
    decreases fs.len(),
{
    if fs.len() == 0 {
        Seq::empty()
    } else {
        let prev = filter_errors(fs.drop_last());
        match fs.last() {
            Ok(_) => prev,
            Err(e) => prev.push(ErrorView::Deserialization(e)),
        }
    }
}

/// The errors that one resolved appender contributes.
pub open spec fn appender_errors<O>(r: ResolvedView<O>) -> Seq<ErrorView> {
    match r.outcome {
        Ok(_) => filter_errors(r.filters),
        Err(e) => seq![ErrorView::Deserialization(e)],
    }
}

pub open spec fn resolution_errors<O>(rs: Seq<ResolvedView<O>>) -> Seq<ErrorView>
    decreases rs.len(),
{
    if rs.len() == 0 {
        Seq::empty()
    } else {
        resolution_errors(rs.drop_last()) + appender_errors(rs.last())
    }
}

/// The appenders that were built, each with the filters built for it.
pub open spec fn built_appenders<O>(rs: Seq<ResolvedView<O>>) -> Seq<AppenderView<O>>
    decreases rs.len(),
{
    if rs.len() == 0 {
        Seq::empty()
    } else {
        let prev = built_appenders(rs.drop_last());
        let r = rs.last();
        match r.outcome {
            Ok(o) => prev.push(AppenderView { name: r.name, instance: o, filters: filter_values(r.filters) }),
            Err(_) => prev,
        }
    }
}

pub open spec fn has_name<T>(s: Seq<T>, name: spec_fn(T) -> Seq<char>, n: Seq<char>) -> bool {
    exists|k: int| 0 <= k < s.len() && name(#[trigger] s[k]) == n
}

/// The items whose name no earlier item has, in order.
pub open spec fn first_named<T>(s: Seq<T>, name: spec_fn(T) -> Seq<char>) -> Seq<T>
    decreases s.len(),
{
    if s.len() == 0 {
        Seq::empty()
    } else {
        let prev = first_named(s.drop_last(), name);
        if has_name(s.drop_last(), name, name(s.last())) {
            prev
        } else {
            prev.push(s.last())
        }
    }
}

/// The names of the items that repeat an earlier item's name, in order.
pub open spec fn repeated_names<T>(s: Seq<T>, name: spec_fn(T) -> Seq<char>) -> Seq<Seq<char>>
    decreases s.len(),
{
    if s.len() == 0 {
        Seq::empty()
    } else {
        let prev = repeated_names(s.drop_last(), name);
        if has_name(s.drop_last(), name, name(s.last())) {
            prev.push(name(s.last()))
        } else {
            prev
        }
    }
}

pub open spec fn appender_name<O>() -> spec_fn(AppenderView<O>) -> Seq<char> {
    |a: AppenderView<O>| a.name
}

pub open spec fn logger_name() -> spec_fn(LoggerView) -> Seq<char> {
    |l: LoggerView| l.name
}

pub open spec fn appender_duplicate() -> spec_fn(Seq<char>) -> ErrorView {
    |n: Seq<char>| ErrorView::DuplicateAppenderName(n)
}

pub open spec fn logger_duplicate() -> spec_fn(Seq<char>) -> ErrorView {
    |n: Seq<char>| ErrorView::DuplicateLoggerName(n)
}

/// The logger that a raw logger describes; additivity defaults to on.
pub open spec fn logger_of(l: RawLogger) -> LoggerView {
    LoggerView {
        name: l.name@,
        level: l.level,
        appenders: names_view(l.appenders@),
        additive: match l.additive {
            Some(b) => b,
            None => true,
        },
    }
}

/// The root that the document describes; without one, the root lets
/// everything up to `Debug` through and has no appenders.
pub open spec fn root_of(r: Option<RawRoot>) -> RootView {
    match r {
        Some(r) => r@,
        None => RootView { level: LevelFilter::Debug, appenders: Seq::empty() },
    }
}

impl View for RawRoot {
    type V = RootView;

    open spec fn view(&self) -> RootView {
        RootView { level: self.level, appenders: names_view(self.appenders@) }
    }
}

pub open spec fn loggers_of(ls: Seq<RawLogger>) -> Seq<LoggerView> {
    ls.map_values(|l: RawLogger| logger_of(l))
}

/// The configuration assembled from a root, resolved appenders and loggers:
/// the first of each name is kept.
pub open spec fn assembled_of<O>(
    root: Option<RawRoot>,
    rs: Seq<ResolvedView<O>>,
    loggers: Seq<RawLogger>,
) -> AssembledView<O> {
    AssembledView {
        root: root_of(root),
        appenders: first_named(built_appenders(rs), appender_name()),
        loggers: first_named(loggers_of(loggers), logger_name()),
    }
}

/// The errors of an assembly, in order: those of the appenders and their
/// filters, then the repeated appender names, then the repeated logger names.
pub open spec fn assembly_errors<O>(rs: Seq<ResolvedView<O>>, loggers: Seq<RawLogger>) -> Seq<
    ErrorView,
> {
    resolution_errors(rs) + repeated_names(built_appenders(rs), appender_name()).map_values(
        appender_duplicate(),
    ) + repeated_names(loggers_of(loggers), logger_name()).map_values(logger_duplicate())
}

// ---- resolution ----

proof fn lemma_factory_gave<D: Deserialize>(
    reg: &Deserializers<D>,
    family: Family,
    kind: Seq<char>,
    config: D::Config,
    r: Result<D::Output, DeserializeError>,
)
    requires
        reg.registered(family, kind) ==> match r {
            Ok(o) => reg@[(family, kind)].builds(config, Ok(o)),
            Err(e) => e is Build && reg@[(family, kind)].builds(config, Err(e->Build_0)),
        },
    ensures
        factory_gave(reg, family, kind, config, outcome_view(r)),
{
    if reg.registered(family, kind) {
        if let Err(e) = r {
            let m = e->Build_0;
            assert(m@ == outcome_view(r)->Err_0->Build_0);
            assert(reg@[(family, kind)].builds(config, Err(m)));
        }
    }
}

/// Builds each filter under its kind, in order.
fn resolve_filters<D: Deserialize>(filters: Vec<RawFilter<D::Config>>, reg: &Deserializers<D>) -> (r:
    Vec<Result<D::Output, DeserializeError>>)
    requires
        reg.wf(),
    ensures
        r@.len() == filters@.len(),
        forall|j: int|
            0 <= j < r@.len() ==> outcome_fits(
                reg,
                Family::Filter,
                filters@[j].kind@,
                #[trigger] outcome_view(r@[j]),
            ),
        forall|j: int|
            0 <= j < r@.len() ==> factory_gave(
                reg,
                Family::Filter,
                filters@[j].kind@,
                filters@[j].config,
                #[trigger] outcome_view(r@[j]),
            ),
{
    let ghost orig = filters@;
    let mut filters = filters;
    let mut out: Vec<Result<D::Output, DeserializeError>> = Vec::new();
    while filters.len() > 0
        invariant
            reg.wf(),
            out@.len() + filters@.len() == orig.len(),
            filters@ == orig.subrange(out@.len() as int, orig.len() as int),
            forall|j: int|
                0 <= j < out@.len() ==> outcome_fits(
                    reg,
                    Family::Filter,
                    orig[j].kind@,
                    #[trigger] outcome_view(out@[j]),
                ),
            forall|j: int|
                0 <= j < out@.len() ==> factory_gave(
                    reg,
                    Family::Filter,
                    orig[j].kind@,
                    orig[j].config,
                    #[trigger] outcome_view(out@[j]),
                ),
        decreases filters@.len(),
    {
        let ghost done = out@.len();
        let f = filters.remove(0);
        assert(f == orig[done as int]);
        let RawFilter { kind, config } = f;
        let r = reg.deserialize(Family::Filter, kind.as_str(), config);
        proof {
            lemma_factory_gave(reg, Family::Filter, kind@, config, r);
        }
        out.push(r);
        assert(filters@ =~= orig.subrange(out@.len() as int, orig.len() as int));
    }
    out
}

/// Looks up and builds each appender and, for each appender that was built,
/// its filters in order. Nothing is built for an appender that failed.
pub fn resolve<D: Deserialize>(appenders: Vec<RawAppender<D::Config>>, reg: &Deserializers<D>) -> (r:
    Vec<Resolved<D::Output>>)
    requires
        reg.wf(),
    ensures
        appenders_fit(reg, appenders@, resolved_view(r@)),
        appenders_built(reg, appenders@, resolved_view(r@)),
{
    let ghost orig = appenders@;
    let mut appenders = appenders;
    let mut out: Vec<Resolved<D::Output>> = Vec::new();
    while appenders.len() > 0
        invariant
            reg.wf(),
            out@.len() + appenders@.len() == orig.len(),
            appenders@ == orig.subrange(out@.len() as int, orig.len() as int),
            forall|j: int| 0 <= j < out@.len() ==> appender_fits(reg, orig[j], #[trigger] out@[j]@),
            appenders_built(reg, orig, resolved_view(out@)),
        decreases appenders@.len(),
    {
        let ghost done = out@.len();
        let a = appenders.remove(0);
        assert(a == orig[done as int]);
        let RawAppender { name, kind, config, filters } = a;
        let made = reg.deserialize(Family::Appender, kind.as_str(), config);
        proof {
            lemma_factory_gave(reg, Family::Appender, kind@, config, made);
        }
        let res = match made {
            Ok(o) => {
                let fs = resolve_filters(filters, reg);
                Resolved { name, outcome: Ok(o), filters: fs }
            },
            Err(e) => Resolved { name, outcome: Err(e), filters: Vec::new() },
        };
        proof {
            let rv = res@;
            assert(rv.filters.len() == res.filters@.len());
            if rv.outcome is Ok {
                assert forall|j: int| 0 <= j < rv.filters.len() implies #[trigger] outcome_fits(
                    reg,
                    Family::Filter,
                    orig[done as int].filters@[j].kind@,
                    rv.filters[j],
                ) by {
                    assert(rv.filters[j] == outcome_view(res.filters@[j]));
                }
                assert forall|j: int| 0 <= j < rv.filters.len() && 0 <= j < orig[done as int].filters@.len() implies factory_gave(
                    reg,
                    Family::Filter,
                    orig[done as int].filters@[j].kind@,
                    orig[done as int].filters@[j].config,
                    #[trigger] rv.filters[j],
                ) by {
                    assert(rv.filters[j] == outcome_view(res.filters@[j]));
                }
            }
        }
        let ghost pre_out = out@;
        out.push(res);
        assert(appenders@ =~= orig.subrange(out@.len() as int, orig.len() as int));
        assert forall|k: int| 0 <= k < orig.len() && 0 <= k < resolved_view(out@).len() implies {
            &&& factory_gave(
                reg,
                Family::Appender,
                orig[k].kind@,
                orig[k].config,
                (#[trigger] resolved_view(out@)[k]).outcome,
            )
            &&& forall|j: int|
                0 <= j < resolved_view(out@)[k].filters.len() && 0 <= j < orig[k].filters@.len() ==> factory_gave(
                    reg,
                    Family::Filter,
                    orig[k].filters@[j].kind@,
                    orig[k].filters@[j].config,
                    #[trigger] resolved_view(out@)[k].filters[j],
                )
        } by {
            if k < done {
                assert(resolved_view(out@)[k] == resolved_view(pre_out)[k]);
            } else {
                assert(resolved_view(out@)[k] == res@);
            }
        }
        assert forall|j: int| 0 <= j < out@.len() implies appender_fits(reg, orig[j], #[trigger] out@[j]@) by {
            if j < done {
            }
        }
    }
    assert(resolved_view(out@).len() == orig.len());
    assert forall|i: int| 0 <= i < orig.len() implies #[trigger] appender_fits(reg, orig[i], resolved_view(out@)[i]) by {
        assert(resolved_view(out@)[i] == out@[i]@);
    }
    out
}

// ---- assembly ----

proof fn lemma_first_named_has_name<T>(s: Seq<T>, name: spec_fn(T) -> Seq<char>, n: Seq<char>)
    ensures
        has_name(first_named(s, name), name, n) == has_name(s, name, n),
    decreases s.len(),
{
    if s.len() > 0 {
        let prev = s.drop_last();
        lemma_first_named_has_name(prev, name, n);
        let fp = first_named(prev, name);
        if has_name(s, name, n) {
            let k = choose|k: int| 0 <= k < s.len() && name(#[trigger] s[k]) == n;
            if k < prev.len() {
                assert(name(prev[k]) == n);
                assert(has_name(fp, name, n));
                let m = choose|m: int| 0 <= m < fp.len() && name(#[trigger] fp[m]) == n;
                if !has_name(prev, name, name(s.last())) {
                    assert(first_named(s, name)[m] == fp[m]);
                }
            } else if has_name(prev, name, name(s.last())) {
                assert(has_name(fp, name, n));
            } else {
                assert(first_named(s, name)[fp.len() as int] == s.last());
            }
        }
        if has_name(first_named(s, name), name, n) {
            let fs = first_named(s, name);
            let m = choose|m: int| 0 <= m < fs.len() && name(#[trigger] fs[m]) == n;
            if m < fp.len() {
                assert(fs[m] == fp[m]);
                assert(has_name(fp, name, n));
                let k = choose|k: int| 0 <= k < prev.len() && name(#[trigger] prev[k]) == n;
                assert(s[k] == prev[k]);
            } else {
                assert(name(s[s.len() - 1]) == n);
            }
        }
    }
}

/// Turns the appenders that were built into assembled appenders, keeping
/// only the filters that were built, and records every failure in order.
fn build_appenders<O>(rs: Vec<Resolved<O>>, errors: &mut Vec<Error>) -> (r: Vec<Appender<O>>)
    ensures
        r@.map_values(|a: Appender<O>| a@) == built_appenders(resolved_view(rs@)),
        errors_view(final(errors)@) == errors_view(old(errors)@) + resolution_errors(resolved_view(rs@)),
{
    let ghost rv = resolved_view(rs@);
    let ghost base = errors_view(errors@);
    let n0 = rs.len();
    let ghost n = n0 as nat;
    let mut rs = rs;
    let mut out: Vec<Appender<O>> = Vec::new();
    let mut i: usize = 0;
    while rs.len() > 0
        invariant
            i + rs@.len() == n,
            n == n0,
            rv.len() == n,
            forall|j: int| 0 <= j < rs@.len() ==> #[trigger] rs@[j]@ == rv[i + j],
            out@.map_values(|a: Appender<O>| a@) == built_appenders(rv.subrange(0, i as int)),
            errors_view(errors@) == base + resolution_errors(rv.subrange(0, i as int)),
        decreases rs@.len(),
    {
        let ghost pre_rs = rs@;
        let r = rs.remove(0);
        assert(r@ == pre_rs[0]@);
        let ghost cur = rv[i as int];
        assert(cur == r@);
        let ghost before_errs = errors_view(errors@);
        let ghost before_out = out@.map_values(|a: Appender<O>| a@);
        let Resolved { name, outcome, filters } = r;
        let ghost fv = cur.filters;
        match outcome {
            Ok(instance) => {
                let ghost fbase = errors_view(errors@);
                let mut fs = filters;
                let mut kept: Vec<O> = Vec::new();
                let m0 = fs.len();
                let ghost m = m0 as nat;
                let mut k: usize = 0;
                while fs.len() > 0
                    invariant
                        k + fs@.len() == m,
                        m == m0,
                        fv.len() == m,
                        forall|j: int| 0 <= j < fs@.len() ==> #[trigger] outcome_view(fs@[j]) == fv[k + j],
                        kept@ == filter_values(fv.subrange(0, k as int)),
                        errors_view(errors@) == fbase + filter_errors(fv.subrange(0, k as int)),
                    decreases fs@.len(),
                {
                    let ghost pre_fs = fs@;
                    let f = fs.remove(0);
                    assert(outcome_view(f) == outcome_view(pre_fs[0]));
                    assert(fv.subrange(0, k + 1).drop_last() =~= fv.subrange(0, k as int));
                    let ghost ev = errors_view(errors@);
                    match f {
                        Ok(o) => {
                            kept.push(o);
                        },
                        Err(e) => {
                            errors.push(Error::Deserialization(e));
                            assert(errors_view(errors@) =~= ev.push(ErrorView::Deserialization(e@)));
                        },
                    }
                    k = k + 1;
                    assert forall|j: int| 0 <= j < fs@.len() implies #[trigger] outcome_view(fs@[j]) == fv[k + j] by {
                        assert(fs@[j] == pre_fs[j + 1]);
                    }
                }
                assert(fv.subrange(0, k as int) =~= fv);
                out.push(Appender { name, instance, filters: kept });
            },
            Err(e) => {
                errors.push(Error::Deserialization(e));
                assert(errors_view(errors@) =~= before_errs.push(ErrorView::Deserialization(e@)));
            },
        }
        assert(rv.subrange(0, i + 1).drop_last() =~= rv.subrange(0, i as int));
        assert(out@.map_values(|a: Appender<O>| a@) =~= built_appenders(rv.subrange(0, i + 1)));
        assert(errors_view(errors@) =~= base + resolution_errors(rv.subrange(0, i + 1)));
        i = i + 1;
        assert forall|j: int| 0 <= j < rs@.len() implies #[trigger] rs@[j]@ == rv[i + j] by {
            assert(rs@[j] == pre_rs[j + 1]);
        }
    }
    assert(rv.subrange(0, i as int) =~= rv);
    out
}

/// An item of the assembled configuration that is known by its name; a
/// second item of the same name is an error.
pub trait Named: View + Sized {
    /// The name of an item, on its view.
    spec fn name_fn() -> spec_fn(Self::V) -> Seq<char>;

    /// The error for a repeated name.
    spec fn duplicate_fn() -> spec_fn(Seq<char>) -> ErrorView;

    fn name(&self) -> (r: &String)
        ensures
            r@ == Self::name_fn()(self@),
    ;

    /// The error recording that this item repeats an earlier name.
    fn into_duplicate(self) -> (r: Error)
        ensures
            r@ == Self::duplicate_fn()(Self::name_fn()(self@)),
    ;
}

impl<O> Named for Appender<O> {
    open spec fn name_fn() -> spec_fn(AppenderView<O>) -> Seq<char> {
        appender_name()
    }

    open spec fn duplicate_fn() -> spec_fn(Seq<char>) -> ErrorView {
        appender_duplicate()
    }

    fn name(&self) -> (r: &String) {
        &self.name
    }

    fn into_duplicate(self) -> (r: Error) {
        Error::Config(ConfigError::DuplicateAppenderName(self.name))
    }
}

impl Named for Logger {
    open spec fn name_fn() -> spec_fn(LoggerView) -> Seq<char> {
        logger_name()
    }

    open spec fn duplicate_fn() -> spec_fn(Seq<char>) -> ErrorView {
        logger_duplicate()
    }

    fn name(&self) -> (r: &String) {
        &self.name
    }

    fn into_duplicate(self) -> (r: Error) {
        Error::Config(ConfigError::DuplicateLoggerName(self.name))
    }
}

pub open spec fn views<T: View>(v: Seq<T>) -> Seq<T::V> {
    v.map_values(|t: T| t@)
}

/// Whether an item in `v` is named `name`.
fn has_named<T: Named>(v: &Vec<T>, name: &String) -> (r: bool)
    ensures
        r == has_name(views(v@), T::name_fn(), name@),
{
    let ghost sv = views(v@);
    let mut k: usize = 0;
    while k < v.len()
        invariant
            k <= v@.len(),
            sv == views(v@),
            forall|j: int| 0 <= j < k ==> T::name_fn()(#[trigger] sv[j]) != name@,
        decreases v@.len() - k,
    {
        if *v[k].name() == *name {
            assert(T::name_fn()(sv[k as int]) == name@);
            return true;
        }
        k = k + 1;
    }
    false
}

/// Keeps the first item of each name; each later one is dropped and
/// recorded as a duplicate.
fn dedup<T: Named>(v: Vec<T>, errors: &mut Vec<Error>) -> (r: Vec<T>)
    ensures
        views(r@) == first_named(views(v@), T::name_fn()),
        errors_view(final(errors)@) == errors_view(old(errors)@) + repeated_names(
            views(v@),
            T::name_fn(),
        ).map_values(T::duplicate_fn()),
{
    let ghost sv = views(v@);
    let ghost base = errors_view(errors@);
    let n0 = v.len();
    let mut v = v;
    let mut kept: Vec<T> = Vec::new();
    let mut i: usize = 0;
    while v.len() > 0
        invariant
            i + v@.len() == n0,
            sv.len() == n0,
            forall|j: int| 0 <= j < v@.len() ==> #[trigger] v@[j]@ == sv[i + j],
            views(kept@) == first_named(sv.subrange(0, i as int), T::name_fn()),
            errors_view(errors@) == base + repeated_names(sv.subrange(0, i as int), T::name_fn()).map_values(
                T::duplicate_fn(),
            ),
        decreases v@.len(),
    {
        let ghost pre = v@;
        let ghost pre_kept = views(kept@);
        let ghost ev = errors_view(errors@);
        let a = v.remove(0);
        assert(a@ == pre[0]@);
        let ghost prefix = sv.subrange(0, i as int);
        assert(sv.subrange(0, i + 1).drop_last() =~= prefix);
        assert(sv.subrange(0, i + 1).last() == a@);
        proof {
            lemma_first_named_has_name(prefix, T::name_fn(), T::name_fn()(a@));
        }
        if has_named(&kept, a.name()) {
            let ghost nm = T::name_fn()(a@);
            errors.push(a.into_duplicate());
            assert(errors_view(errors@) =~= ev.push(T::duplicate_fn()(nm)));
        } else {
            kept.push(a);
            assert(views(kept@) =~= pre_kept.push(a@));
        }
        assert(errors_view(errors@) =~= base + repeated_names(sv.subrange(0, i + 1), T::name_fn()).map_values(
            T::duplicate_fn(),
        ));
        i = i + 1;
        assert forall|j: int| 0 <= j < v@.len() implies #[trigger] v@[j]@ == sv[i + j] by {
            assert(v@[j] == pre[j + 1]);
        }
    }
    assert(sv.subrange(0, i as int) =~= sv);
    kept
}

/// The logger that a raw logger describes.
fn build_logger(l: RawLogger) -> (r: Logger)
    ensures
        r@ == logger_of(l),
{
    let RawLogger { name, level, appenders, additive } = l;
    let additive = match additive {
        Some(b) => b,
        None => true,
    };
    Logger { name, level, appenders, additive }
}

fn build_loggers(ls: Vec<RawLogger>) -> (r: Vec<Logger>)
    ensures
        r@.map_values(|l: Logger| l@) == loggers_of(ls@),
{
    let ghost orig = ls@;
    let n0 = ls.len();
    let mut ls = ls;
    let mut out: Vec<Logger> = Vec::new();
    while ls.len() > 0
        invariant
            out@.len() + ls@.len() == n0,
            orig.len() == n0,
            ls@ == orig.subrange(out@.len() as int, n0 as int),
            out@.map_values(|l: Logger| l@) == loggers_of(orig.subrange(0, out@.len() as int)),
        decreases ls@.len(),
    {
        let ghost pre_out = out@.map_values(|l: Logger| l@);
        let ghost done = out@.len();
        let l = ls.remove(0);
        assert(l == orig[done as int]);
        let lg = build_logger(l);
        out.push(lg);
        assert(ls@ =~= orig.subrange(out@.len() as int, n0 as int));
        assert forall|k: int| 0 <= k < out@.len() implies out@.map_values(|l: Logger| l@)[k] == loggers_of(
            orig.subrange(0, out@.len() as int),
        )[k] by {
            if k < done {
                assert(pre_out[k] == loggers_of(orig.subrange(0, done as int))[k]);
            }
        }
        assert(out@.map_values(|l: Logger| l@) =~= loggers_of(orig.subrange(0, out@.len() as int)));
    }
    assert(orig.subrange(0, n0 as int) =~= orig);
    out
}

/// The root that the document describes.
fn build_root(raw: Option<RawRoot>) -> (r: Root)
    ensures
        r@ == root_of(raw),
{
    match raw {
        Some(raw) => Root { level: raw.level, appenders: raw.appenders },
        None => {
            let r = Root { level: LevelFilter::Debug, appenders: Vec::new() };
            assert(names_view(r.appenders@) =~= Seq::<Seq<char>>::empty());
            r
        },
    }
}

/// The mathematical form of a `Config`.
pub struct ConfigView<O> {
    pub refresh_rate: Option<Interval>,
    pub config: AssembledView<O>,
    pub errors: Seq<ErrorView>,
}

impl<O> View for Config<O> {
    type V = ConfigView<O>;

    closed spec fn view(&self) -> ConfigView<O> {
        ConfigView {
            refresh_rate: self.refresh_rate,
            config: self.config@,
            errors: errors_view(self.errors@),
        }
    }
}

impl<O> Config<O> {
    /// Assembles a configuration from a root, resolved appenders and loggers.
    /// Appender and logger names must be unique: the first of each name is
    /// kept and each later one is recorded as an error. Errors come in this
    /// order: each appender's (its own, or its filters' in order), then the
    /// repeated appender names, then the repeated logger names.
    pub fn assemble(
        refresh_rate: Option<Interval>,
        root: Option<RawRoot>,
        resolved: Vec<Resolved<O>>,
        loggers: Vec<RawLogger>,
    ) -> (r: Self)
        ensures
            r@.refresh_rate == refresh_rate,
            r@.config == assembled_of(root, resolved_view(resolved@), loggers@),
            r@.errors == assembly_errors(resolved_view(resolved@), loggers@),
    {
        let ghost rv = resolved_view(resolved@);
        let ghost lv = loggers@;
        let mut errors: Vec<Error> = Vec::new();
        assert(errors_view(errors@) =~= Seq::<ErrorView>::empty());
        let root = build_root(root);
        let built = build_appenders(resolved, &mut errors);
        let appenders = dedup(built, &mut errors);
        let all_loggers = build_loggers(loggers);
        let loggers = dedup(all_loggers, &mut errors);
        let r = Config { refresh_rate, config: Assembled { root, appenders, loggers }, errors };
        assert(r@.errors =~= assembly_errors(rv, lv));
        r
    }

    /// Assembles the configuration that a parsed document describes, building
    /// each component with the factory registered for its kind. A component
    /// that cannot be built is left out and its error recorded; this never
    /// stops the rest of the assembly.
    pub fn parse<D: Deserialize<Output = O>>(raw: RawConfig<D::Config>, deserializers: &Deserializers<D>) -> (r: Self)
        requires
            deserializers.wf(),
        ensures
            r@.refresh_rate == raw.refresh_rate,
            exists|res: Seq<ResolvedView<O>>|
                {
                    &&& appenders_fit(deserializers, raw.appenders@, res)
                    &&& appenders_built(deserializers, raw.appenders@, res)
                    &&& r@.config == assembled_of(raw.root, res, raw.loggers@)
                    &&& r@.errors == assembly_errors(res, raw.loggers@)
                },
    {
        let RawConfig { refresh_rate, root, appenders, loggers } = raw;
        let resolved = resolve(appenders, deserializers);
        let r = Self::assemble(refresh_rate, root, resolved, loggers);
        assert(appenders_fit(deserializers, raw.appenders@, resolved_view(resolved@)));
        r
    }

    /// The refresh interval the document asked for, if any.
    pub fn refresh_rate(&self) -> (r: Option<Interval>)
        ensures
            r == self@.refresh_rate,
    {
        self.refresh_rate
    }

    /// The assembled configuration.
    pub fn into_config(self) -> (r: Assembled<O>)
        ensures
            r@ == self@.config,
    {
        self.config
    }

    /// The non-fatal errors met while assembling, in order.
    pub fn errors(&self) -> (r: &[Error])
        ensures
            errors_view(r@) == self@.errors,
    {
        self.errors.as_slice()
    }
}

// ---- laws ----

/// A document with no root, appenders or loggers assembles to the default
/// root (up to `Debug`, no appenders), no appenders, no loggers and no errors.
pub proof fn lemma_empty_document<D, V, O>(
    reg: &Deserializers<D>,
    raw: RawConfig<V>,
    res: Seq<ResolvedView<O>>,
)
    requires
        raw.root is None,
        raw.appenders@.len() == 0,
        raw.loggers@.len() == 0,
        appenders_fit(reg, raw.appenders@, res),
    ensures
        assembled_of(raw.root, res, raw.loggers@).root == (RootView {
            level: LevelFilter::Debug,
            appenders: Seq::empty(),
        }),
        assembled_of(raw.root, res, raw.loggers@).appenders.len() == 0,
        assembled_of(raw.root, res, raw.loggers@).loggers.len() == 0,
        assembly_errors(res, raw.loggers@).len() == 0,
{
    assert(loggers_of(raw.loggers@) =~= Seq::<LoggerView>::empty());
    assert(assembly_errors(res, raw.loggers@) =~= Seq::<ErrorView>::empty());
}

proof fn lemma_resolution_errors_include<O>(rs: Seq<ResolvedView<O>>, i: int, e: ErrorView)
    requires
        0 <= i < rs.len(),
        appender_errors(rs[i]).contains(e),
    ensures
        resolution_errors(rs).contains(e),
    decreases rs.len(),
{
    let prev = rs.drop_last();
    let k = choose|k: int| 0 <= k < appender_errors(rs[i]).len() && appender_errors(rs[i])[k] == e;
    if i == rs.len() - 1 {
        assert(resolution_errors(rs)[resolution_errors(prev).len() + k] == e);
    } else {
        assert(prev[i] == rs[i]);
        lemma_resolution_errors_include(prev, i, e);
        let m = choose|m: int| 0 <= m < resolution_errors(prev).len() && resolution_errors(prev)[m] == e;
        assert(resolution_errors(rs)[m] == e);
    }
}

proof fn lemma_built_names<O>(rs: Seq<ResolvedView<O>>, n: Seq<char>)
    requires
        has_name(built_appenders(rs), appender_name(), n),
    ensures
        exists|k: int| 0 <= k < rs.len() && (#[trigger] rs[k]).name == n && rs[k].outcome is Ok,
    decreases rs.len(),
{
    let prev = rs.drop_last();
    let b = built_appenders(rs);
    let m = choose|m: int| 0 <= m < b.len() && appender_name::<O>()(#[trigger] b[m]) == n;
    if m < built_appenders(prev).len() {
        assert(b[m] == built_appenders(prev)[m]);
        assert(has_name(built_appenders(prev), appender_name(), n));
        lemma_built_names(prev, n);
        let k = choose|k: int| 0 <= k < prev.len() && (#[trigger] prev[k]).name == n && prev[k].outcome is Ok;
        assert(rs[k] == prev[k]);
    } else {
        assert(rs[rs.len() - 1].name == n);
    }
}

/// An appender whose kind has no registered factory fails with the
/// unknown-kind error of the appender family, that error alone stands for it
/// in the error list, and no appender of its name is assembled (names being
/// unique in the document).
pub proof fn lemma_unknown_appender_kind<D, V, O>(
    reg: &Deserializers<D>,
    root: Option<RawRoot>,
    raw: Seq<RawAppender<V>>,
    loggers: Seq<RawLogger>,
    res: Seq<ResolvedView<O>>,
    i: int,
)
    requires
        appenders_fit(reg, raw, res),
        0 <= i < raw.len(),
        !reg.registered(Family::Appender, raw[i].kind@),
        forall|j: int, k: int|
            0 <= j < raw.len() && 0 <= k < raw.len() && j != k ==> (#[trigger] raw[j]).name@ != (
            #[trigger] raw[k]).name@,
    ensures
        appender_errors(res[i]) == seq![
            ErrorView::Deserialization(DeserializeErrorView::UnknownKind(Family::Appender, raw[i].kind@)),
        ],
        assembly_errors(res, loggers).contains(
            ErrorView::Deserialization(DeserializeErrorView::UnknownKind(Family::Appender, raw[i].kind@)),
        ),
        !has_name(assembled_of(root, res, loggers).appenders, appender_name(), raw[i].name@),
{
    let e = ErrorView::Deserialization(DeserializeErrorView::UnknownKind(Family::Appender, raw[i].kind@));
    assert(appender_fits(reg, raw[i], res[i]));
    assert(appender_errors(res[i]) =~= seq![e]);
    assert(appender_errors(res[i])[0] == e);
    lemma_resolution_errors_include(res, i, e);
    let re = resolution_errors(res);
    let m = choose|m: int| 0 <= m < re.len() && re[m] == e;
    assert(assembly_errors(res, loggers)[m] == e);
    let built = built_appenders(res);
    lemma_first_named_has_name(built, appender_name(), raw[i].name@);
    if has_name(built, appender_name(), raw[i].name@) {
        lemma_built_names(res, raw[i].name@);
        let k = choose|k: int| 0 <= k < res.len() && (#[trigger] res[k]).name == raw[i].name@ && res[k].outcome is Ok;
        assert(appender_fits(reg, raw[k], res[k]));
    }
}

proof fn lemma_all_filters_built<O>(fs: Seq<Result<O, DeserializeErrorView>>)
    requires
        forall|j: int| 0 <= j < fs.len() ==> (#[trigger] fs[j]) is Ok,
    ensures
        filter_values(fs) == fs.map_values(|r: Result<O, DeserializeErrorView>| r->Ok_0),
        filter_errors(fs) == Seq::<ErrorView>::empty(),
    decreases fs.len(),
{
    if fs.len() > 0 {
        let prev = fs.drop_last();
        assert forall|j: int| 0 <= j < prev.len() implies (#[trigger] prev[j]) is Ok by {
            assert(prev[j] == fs[j]);
        }
        lemma_all_filters_built(prev);
        assert(fs.last() is Ok);
        assert(filter_values(fs) =~= fs.map_values(|r: Result<O, DeserializeErrorView>| r->Ok_0));
    }
}

/// When exactly one of an appender's filters fails, the appender keeps the
/// other filters in the order they were listed, one fewer than were listed, and
/// that one failure is the appender's only error.
pub proof fn lemma_one_failed_filter<O>(r: ResolvedView<O>, i: int)
    requires
        r.outcome is Ok,
        0 <= i < r.filters.len(),
        r.filters[i] is Err,
        forall|j: int| 0 <= j < r.filters.len() && j != i ==> (#[trigger] r.filters[j]) is Ok,
    ensures
        filter_values(r.filters).len() == r.filters.len() - 1,
        filter_values(r.filters) == r.filters.remove(i).map_values(
            |f: Result<O, DeserializeErrorView>| f->Ok_0,
        ),
        appender_errors(r) == seq![ErrorView::Deserialization(r.filters[i]->Err_0)],
{
    lemma_failed_filter_at(r.filters, i);
}

proof fn lemma_failed_filter_at<O>(fs: Seq<Result<O, DeserializeErrorView>>, i: int)
    requires
        0 <= i < fs.len(),
        fs[i] is Err,
        forall|j: int| 0 <= j < fs.len() && j != i ==> (#[trigger] fs[j]) is Ok,
    ensures
        filter_values(fs) == fs.remove(i).map_values(|f: Result<O, DeserializeErrorView>| f->Ok_0),
        filter_errors(fs) == seq![ErrorView::Deserialization(fs[i]->Err_0)],
    decreases fs.len(),
{
    let prev = fs.drop_last();
    if i == fs.len() - 1 {
        assert forall|j: int| 0 <= j < prev.len() implies (#[trigger] prev[j]) is Ok by {
            assert(prev[j] == fs[j]);
        }
        lemma_all_filters_built(prev);
        assert(fs.remove(i) =~= prev);
        assert(filter_errors(fs) =~= seq![ErrorView::Deserialization(fs[i]->Err_0)]);
    } else {
        assert(prev[i] == fs[i]);
        assert forall|j: int| 0 <= j < prev.len() && j != i implies (#[trigger] prev[j]) is Ok by {
            assert(prev[j] == fs[j]);
        }
        lemma_failed_filter_at(prev, i);
        assert(fs.last() is Ok);
        assert(fs.remove(i) =~= prev.remove(i).push(fs.last()));
        assert(filter_values(fs) =~= fs.remove(i).map_values(|f: Result<O, DeserializeErrorView>| f->Ok_0));
    }
    assert(filter_values(fs) =~= fs.remove(i).map_values(|f: Result<O, DeserializeErrorView>| f->Ok_0));
}

/// Two assemblies of the same document against the same registry, whose
/// factories gave the same results, are equal, with equal error lists: the
/// registry's lookups themselves leave nothing open.
pub proof fn lemma_assembly_deterministic<D, V, O>(
    reg: &Deserializers<D>,
    root: Option<RawRoot>,
    raw: Seq<RawAppender<V>>,
    loggers: Seq<RawLogger>,
    res1: Seq<ResolvedView<O>>,
    res2: Seq<ResolvedView<O>>,
)
    requires
        appenders_fit(reg, raw, res1),
        appenders_fit(reg, raw, res2),
        forall|i: int|
            0 <= i < raw.len() && reg.registered(Family::Appender, (#[trigger] raw[i]).kind@) ==> res1[i].outcome
                == res2[i].outcome,
        forall|i: int, j: int|
            0 <= i < raw.len() && res1[i].outcome is Ok && 0 <= j < raw[i].filters@.len() && reg.registered(
                Family::Filter,
                (#[trigger] raw[i].filters@[j]).kind@,
            ) ==> res1[i].filters[j] == res2[i].filters[j],
    ensures
        res1 == res2,
        assembled_of(root, res1, loggers) == assembled_of(root, res2, loggers),
        assembly_errors(res1, loggers) == assembly_errors(res2, loggers),
{
    assert forall|i: int| 0 <= i < res1.len() implies res1[i] == res2[i] by {
        let a = raw[i];
        assert(appender_fits(reg, a, res1[i]));
        assert(appender_fits(reg, a, res2[i]));
        if res1[i].outcome is Ok {
            assert forall|j: int| 0 <= j < res1[i].filters.len() implies res1[i].filters[j]
                == res2[i].filters[j] by {
                assert(outcome_fits(reg, Family::Filter, a.filters@[j].kind@, res1[i].filters[j]));
                assert(outcome_fits(reg, Family::Filter, a.filters@[j].kind@, res2[i].filters[j]));
                if reg.registered(Family::Filter, a.filters@[j].kind@) {
                    assert(raw[i].filters@[j] == a.filters@[j]);
                }
            }
            assert(res1[i].filters =~= res2[i].filters);
        } else {
            assert(res1[i].filters =~= res2[i].filters);
        }
    }
    assert(res1 =~= res2);
}

/// How many times `e` occurs in `s`.
pub open spec fn occurrences(s: Seq<ErrorView>, e: ErrorView) -> nat
    decreases s.len(),
{
    if s.len() == 0 {
        0
    } else {
        occurrences(s.drop_last(), e) + if s.last() == e {
            1nat
        } else {
            0nat
        }
    }
}

proof fn lemma_occurrences_add(a: Seq<ErrorView>, b: Seq<ErrorView>, e: ErrorView)
    ensures
        occurrences(a + b, e) == occurrences(a, e) + occurrences(b, e),
    decreases b.len(),
{
    if b.len() > 0 {
        lemma_occurrences_add(a, b.drop_last(), e);
        assert((a + b).drop_last() =~= a + b.drop_last());
    } else {
        assert(a + b =~= a);
    }
}

proof fn lemma_occurrences_none(s: Seq<ErrorView>, e: ErrorView)
    requires
        forall|k: int| 0 <= k < s.len() ==> s[k] != e,
    ensures
        occurrences(s, e) == 0,
    decreases s.len(),
{
    if s.len() > 0 {
        lemma_occurrences_none(s.drop_last(), e);
    }
}

proof fn lemma_filter_errors_other<O>(fs: Seq<Result<O, DeserializeErrorView>>, kind: Seq<char>)
    requires
        forall|j: int|
            0 <= j < fs.len() ==> (#[trigger] fs[j]) != Err::<O, DeserializeErrorView>(
                DeserializeErrorView::UnknownKind(Family::Appender, kind),
            ),
    ensures
        occurrences(
            filter_errors(fs),
            ErrorView::Deserialization(DeserializeErrorView::UnknownKind(Family::Appender, kind)),
        ) == 0,
    decreases fs.len(),
{
    if fs.len() > 0 {
        let prev = fs.drop_last();
        assert forall|j: int| 0 <= j < prev.len() implies (#[trigger] prev[j]) != Err::<O, DeserializeErrorView>(
            DeserializeErrorView::UnknownKind(Family::Appender, kind),
        ) by {
            assert(prev[j] == fs[j]);
        }
        lemma_filter_errors_other(prev, kind);
        assert(fs.last() == fs[fs.len() - 1]);
        if fs.last() is Err {
            assert(filter_errors(fs).drop_last() =~= filter_errors(prev));
        }
    }
}

proof fn lemma_unknown_kind_count<D, V, O>(
    reg: &Deserializers<D>,
    raw: Seq<RawAppender<V>>,
    res: Seq<ResolvedView<O>>,
    i: int,
)
    requires
        appenders_fit(reg, raw, res),
        0 <= i < raw.len(),
        !reg.registered(Family::Appender, raw[i].kind@),
        forall|j: int| 0 <= j < raw.len() && j != i ==> (#[trigger] raw[j]).kind@ != raw[i].kind@,
    ensures
        occurrences(
            resolution_errors(res),
            ErrorView::Deserialization(DeserializeErrorView::UnknownKind(Family::Appender, raw[i].kind@)),
        ) == 1,
    decreases raw.len(),
{
    let e = ErrorView::Deserialization(DeserializeErrorView::UnknownKind(Family::Appender, raw[i].kind@));
    let n = raw.len() - 1;
    let last = res[n];
    assert(appender_fits(reg, raw[n], last));
    if n == i {
        lemma_no_unknown_kind(reg, raw.drop_last(), res.drop_last(), raw[i].kind@);
        assert(appender_errors(last) =~= seq![e]);
        assert(occurrences(appender_errors(last), e) == 1) by {
            assert(appender_errors(last).drop_last() =~= Seq::<ErrorView>::empty());
            assert(occurrences(Seq::<ErrorView>::empty(), e) == 0);
            assert(appender_errors(last).last() == e);
        }
    } else {
        assert(appenders_fit(reg, raw.drop_last(), res.drop_last())) by {
            assert forall|k: int| 0 <= k < raw.drop_last().len() implies #[trigger] appender_fits(
                reg,
                raw.drop_last()[k],
                res.drop_last()[k],
            ) by {
                assert(appender_fits(reg, raw[k], res[k]));
            }
        }
        assert(raw.drop_last()[i] == raw[i]);
        assert forall|j: int| 0 <= j < raw.drop_last().len() && j != i implies (#[trigger] raw.drop_last()[j]).kind@
            != raw.drop_last()[i].kind@ by {
            assert(raw.drop_last()[j] == raw[j]);
        }
        lemma_unknown_kind_count(reg, raw.drop_last(), res.drop_last(), i);
        lemma_appender_errors_other(reg, raw[n], last, raw[i].kind@);
    }
    assert(res.drop_last() == res.subrange(0, n));
    lemma_occurrences_add(resolution_errors(res.drop_last()), appender_errors(last), e);
}

proof fn lemma_appender_errors_other<D, V, O>(
    reg: &Deserializers<D>,
    raw: RawAppender<V>,
    res: ResolvedView<O>,
    kind: Seq<char>,
)
    requires
        appender_fits(reg, raw, res),
        raw.kind@ != kind,
    ensures
        occurrences(
            appender_errors(res),
            ErrorView::Deserialization(DeserializeErrorView::UnknownKind(Family::Appender, kind)),
        ) == 0,
{
    let e = ErrorView::Deserialization(DeserializeErrorView::UnknownKind(Family::Appender, kind));
    match res.outcome {
        Ok(_) => {
            assert forall|j: int| 0 <= j < res.filters.len() implies (#[trigger] res.filters[j])
                != Err::<O, DeserializeErrorView>(DeserializeErrorView::UnknownKind(Family::Appender, kind)) by {
                assert(outcome_fits(reg, Family::Filter, raw.filters@[j].kind@, res.filters[j]));
            }
            lemma_filter_errors_other(res.filters, kind);
        },
        Err(x) => {
            assert(appender_errors(res) =~= seq![ErrorView::Deserialization(x)]);
            lemma_occurrences_none(appender_errors(res), e);
        },
    }
}

proof fn lemma_no_unknown_kind<D, V, O>(
    reg: &Deserializers<D>,
    raw: Seq<RawAppender<V>>,
    res: Seq<ResolvedView<O>>,
    kind: Seq<char>,
)
    requires
        raw.len() == res.len(),
        forall|j: int| 0 <= j < raw.len() ==> #[trigger] appender_fits(reg, raw[j], res[j]),
        forall|j: int| 0 <= j < raw.len() ==> (#[trigger] raw[j]).kind@ != kind,
    ensures
        occurrences(
            resolution_errors(res),
            ErrorView::Deserialization(DeserializeErrorView::UnknownKind(Family::Appender, kind)),
        ) == 0,
    decreases raw.len(),
{
    if raw.len() > 0 {
        let n = raw.len() - 1;
        assert forall|j: int| 0 <= j < raw.drop_last().len() implies #[trigger] appender_fits(
            reg,
            raw.drop_last()[j],
            res.drop_last()[j],
        ) by {
            assert(appender_fits(reg, raw[j], res[j]));
        }
        assert forall|j: int| 0 <= j < raw.drop_last().len() implies (#[trigger] raw.drop_last()[j]).kind@ != kind by {
            assert(raw[j].kind@ != kind);
        }
        lemma_no_unknown_kind(reg, raw.drop_last(), res.drop_last(), kind);
        assert(appender_fits(reg, raw[n], res[n]));
        assert(raw[n].kind@ != kind);
        lemma_appender_errors_other(reg, raw[n], res[n], kind);
        lemma_occurrences_add(
            resolution_errors(res.drop_last()),
            appender_errors(res[n]),
            ErrorView::Deserialization(DeserializeErrorView::UnknownKind(Family::Appender, kind)),
        );
    }
}

/// An appender whose kind has no registered factory, and which no other
/// appender shares, gives exactly one unknown-kind error of the appender
/// family in the whole error list.
pub proof fn lemma_unknown_appender_kind_once<D, V, O>(
    reg: &Deserializers<D>,
    raw: Seq<RawAppender<V>>,
    loggers: Seq<RawLogger>,
    res: Seq<ResolvedView<O>>,
    i: int,
)
    requires
        appenders_fit(reg, raw, res),
        0 <= i < raw.len(),
        !reg.registered(Family::Appender, raw[i].kind@),
        forall|j: int| 0 <= j < raw.len() && j != i ==> (#[trigger] raw[j]).kind@ != raw[i].kind@,
    ensures
        occurrences(
            assembly_errors(res, loggers),
            ErrorView::Deserialization(DeserializeErrorView::UnknownKind(Family::Appender, raw[i].kind@)),
        ) == 1,
{
    let e = ErrorView::Deserialization(DeserializeErrorView::UnknownKind(Family::Appender, raw[i].kind@));
    lemma_unknown_kind_count(reg, raw, res, i);
    let da = repeated_names(built_appenders(res), appender_name()).map_values(appender_duplicate());
    let dl = repeated_names(loggers_of(loggers), logger_name()).map_values(logger_duplicate());
    lemma_occurrences_none(da, e);
    lemma_occurrences_none(dl, e);
    lemma_occurrences_add(resolution_errors(res), da, e);
    lemma_occurrences_add(resolution_errors(res) + da, dl, e);
}

/// The factory registered for `kind` within `family` never fails on `config`.
pub open spec fn never_fails<D: Deserialize>(
    reg: &Deserializers<D>,
    family: Family,
    kind: Seq<char>,
    config: D::Config,
) -> bool {
    &&& reg.registered(family, kind)
    &&& forall|m: String| !#[trigger] reg@[(family, kind)].builds(config, Err(m))
}

/// When every appender's and filter's kind is registered with a factory that
/// never fails on its configuration, every appender is built with all of its
/// filters, and no component error is recorded.
pub proof fn lemma_all_components_built<D: Deserialize>(
    reg: &Deserializers<D>,
    raw: Seq<RawAppender<D::Config>>,
    res: Seq<ResolvedView<D::Output>>,
)
    requires
        appenders_fit(reg, raw, res),
        appenders_built(reg, raw, res),
        forall|i: int|
            0 <= i < raw.len() ==> never_fails(reg, Family::Appender, (#[trigger] raw[i]).kind@, raw[i].config),
        forall|i: int, j: int|
            0 <= i < raw.len() && 0 <= j < raw[i].filters@.len() ==> never_fails(
                reg,
                Family::Filter,
                (#[trigger] raw[i].filters@[j]).kind@,
                raw[i].filters@[j].config,
            ),
    ensures
        resolution_errors(res) == Seq::<ErrorView>::empty(),
        built_appenders(res).len() == raw.len(),
        forall|i: int|
            0 <= i < res.len() ==> (#[trigger] res[i]).outcome is Ok && filter_values(res[i].filters).len()
                == raw[i].filters@.len(),
    decreases raw.len(),
{
    assert forall|i: int| 0 <= i < res.len() implies (#[trigger] res[i]).outcome is Ok && filter_values(
        res[i].filters,
    ).len() == raw[i].filters@.len() && appender_errors(res[i]) == Seq::<ErrorView>::empty() by {
        assert(appender_fits(reg, raw[i], res[i]));
        assert(never_fails(reg, Family::Appender, raw[i].kind@, raw[i].config));
        assert(res[i].outcome is Ok);
        let fs = res[i].filters;
        assert forall|j: int| 0 <= j < fs.len() implies (#[trigger] fs[j]) is Ok by {
            assert(never_fails(reg, Family::Filter, raw[i].filters@[j].kind@, raw[i].filters@[j].config));
            assert(factory_gave(
                reg,
                Family::Filter,
                raw[i].filters@[j].kind@,
                raw[i].filters@[j].config,
                res[i].filters[j],
            ));
        }
        lemma_all_filters_built(fs);
    }
    if raw.len() > 0 {
        let n = raw.len() - 1;
        assert(appenders_fit(reg, raw.drop_last(), res.drop_last())) by {
            assert forall|k: int| 0 <= k < raw.drop_last().len() implies #[trigger] appender_fits(
                reg,
                raw.drop_last()[k],
                res.drop_last()[k],
            ) by {
                assert(appender_fits(reg, raw[k], res[k]));
            }
        }
        assert(appenders_built(reg, raw.drop_last(), res.drop_last())) by {
            assert forall|k: int| 0 <= k < raw.drop_last().len() && 0 <= k < res.drop_last().len() implies {
                &&& factory_gave(
                    reg,
                    Family::Appender,
                    raw.drop_last()[k].kind@,
                    raw.drop_last()[k].config,
                    (#[trigger] res.drop_last()[k]).outcome,
                )
                &&& forall|j: int|
                    0 <= j < res.drop_last()[k].filters.len() && 0 <= j < raw.drop_last()[k].filters@.len()
                        ==> factory_gave(
                        reg,
                        Family::Filter,
                        raw.drop_last()[k].filters@[j].kind@,
                        raw.drop_last()[k].filters@[j].config,
                        #[trigger] res.drop_last()[k].filters[j],
                    )
            } by {
                assert(res.drop_last()[k] == res[k]);
                assert(raw.drop_last()[k] == raw[k]);
            }
        }
        assert forall|i: int| 0 <= i < raw.drop_last().len() implies never_fails(
            reg,
            Family::Appender,
            (#[trigger] raw.drop_last()[i]).kind@,
            raw.drop_last()[i].config,
        ) by {
            assert(raw.drop_last()[i] == raw[i]);
        }
        assert forall|i: int, j: int|
            0 <= i < raw.drop_last().len() && 0 <= j < raw.drop_last()[i].filters@.len() implies never_fails(
            reg,
            Family::Filter,
            (#[trigger] raw.drop_last()[i].filters@[j]).kind@,
            raw.drop_last()[i].filters@[j].config,
        ) by {
            assert(raw.drop_last()[i] == raw[i]);
        }
        lemma_all_components_built(reg, raw.drop_last(), res.drop_last());
        assert(appender_errors(res[n]) == Seq::<ErrorView>::empty());
        assert(res.last() == res[n]);
        assert(resolution_errors(res) =~= Seq::<ErrorView>::empty());
    }
}

} // verus!
