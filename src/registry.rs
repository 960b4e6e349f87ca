use vstd::prelude::*;
use vstd::string::StringExecFns;

verus! {

/// A family of pluggable components. A kind string selects a component
/// within one family only: families may reuse the same kind strings.
#[derive(Clone, Copy, Debug, PartialEq, Eq, Structural)]
pub enum Family {
    Appender,
    Encoder,
    Filter,
    Policy,
    Roller,
    Trigger,
}

impl Family {
    /// The family's name as it appears in error messages.
    pub open spec fn name_spec(self) -> Seq<char> {
        match self {
            Family::Appender => "appender"@,
            Family::Encoder => "encoder"@,
            Family::Filter => "filter"@,
            Family::Policy => "policy"@,
            Family::Roller => "roller"@,
            Family::Trigger => "trigger"@,
        }
    }

    pub fn name(&self) -> (r: &'static str)
        ensures
            r@ == self.name_spec(),
    {
        match self {
            Family::Appender => "appender",
            Family::Encoder => "encoder",
            Family::Filter => "filter",
            Family::Policy => "policy",
            Family::Roller => "roller",
            Family::Trigger => "trigger",
        }
    }
}

/// Implemented by component types that a registry can build; names the
/// component's family for error messages.
pub trait Deserializable {
    /// The family the component belongs to.
    spec fn family() -> Family;

    /// The name of the family, e.g. "appender".
    fn name() -> (r: &'static str)
        ensures
            r@ == Self::family().name_spec(),
    ;
}

/// A factory that builds components from their configuration value.
///
/// `Config` is the generic configuration tree handed to the factory, which
/// converts it to its own typed shape; `Output` is the built component. The
/// registry is passed along so that composite components can build their
/// own nested components by kind.
pub trait Deserialize: Sized {
    type Config;
    type Output;

    /// Whether `r` is a result this factory may give for `config`. A factory
    /// that promises nothing keeps this default.
    open spec fn builds(&self, config: Self::Config, r: Result<Self::Output, String>) -> bool {
        true
    }

    fn deserialize(
        &self,
        config: Self::Config,
        deserializers: &Deserializers<Self>,
    ) -> (r: Result<Self::Output, String>)
        ensures
            self.builds(config, r),
    ;
}

/// Why a component could not be built.
#[derive(Debug, PartialEq, Eq)]
pub enum DeserializeError {
    /// No factory is registered for the kind within the family.
    UnknownKind { family: Family, kind: String },
    /// The factory rejected the configuration.
    Build(String),
}

/// The text of the error for a missing factory.
pub open spec fn unknown_kind_text(family: Family, kind: Seq<char>) -> Seq<char> {
    "no "@ + family.name_spec() + " deserializer for kind `"@ + kind + "` registered"@
}

/// The mathematical form of a `DeserializeError`.
pub enum DeserializeErrorView {
    UnknownKind(Family, Seq<char>),
    Build(Seq<char>),
}

impl View for DeserializeError {
    type V = DeserializeErrorView;

    open spec fn view(&self) -> DeserializeErrorView {
        match self {
            DeserializeError::UnknownKind { family, kind } => DeserializeErrorView::UnknownKind(
                *family,
                kind@,
            ),
            DeserializeError::Build(msg) => DeserializeErrorView::Build(msg@),
        }
    }
}

impl DeserializeErrorView {
    /// The text of the error.
    pub open spec fn text(self) -> Seq<char> {
        match self {
            DeserializeErrorView::UnknownKind(family, kind) => unknown_kind_text(family, kind),
            DeserializeErrorView::Build(msg) => msg,
        }
    }
}

impl DeserializeError {

    /// A human-readable description of the error.
    pub fn message(&self) -> (r: String)
        ensures
            r@ == self@.text(),
    {
        match self {
            DeserializeError::UnknownKind { family, kind } => {
                let mut s = String::from_str("no ");
                s.append(family.name());
                s.append(" deserializer for kind `");
                s.append(kind.as_str());
                s.append("` registered");
                proof {
                    reveal_strlit("no ");
                    reveal_strlit(" deserializer for kind `");
                    reveal_strlit("` registered");
                }
                s
            },
            DeserializeError::Build(msg) => msg.clone(),
        }
    }
}

/// One registration: a factory under a family and a kind.
pub struct Entry<D> {
    pub family: Family,
    pub kind: String,
    pub factory: D,
}

/// A registry of factories, indexed by family and by kind within the family.
pub struct Deserializers<D> {
    entries: Vec<Entry<D>>,
}

pub open spec fn entry_key<D>(e: Entry<D>) -> (Family, Seq<char>) {
    (e.family, e.kind@)
}

impl<D> Deserializers<D> {
    pub closed spec fn entries(&self) -> Seq<Entry<D>> {
        self.entries@
    }

    /// No two registrations share a family and a kind.
    pub open spec fn wf(&self) -> bool {
        forall|i: int, j: int|
            0 <= i < self.entries().len() && 0 <= j < self.entries().len() && entry_key(
                #[trigger] self.entries()[i],
            ) == entry_key(#[trigger] self.entries()[j]) ==> i == j
    }

    pub open spec fn has_key(&self, key: (Family, Seq<char>)) -> bool {
        exists|i: int| 0 <= i < self.entries().len() && entry_key(#[trigger] self.entries()[i]) == key
    }

    /// The registered factories, by family and kind.
    pub open spec fn view(&self) -> Map<(Family, Seq<char>), D> {
        Map::new(
            |key: (Family, Seq<char>)| self.has_key(key),
            |key: (Family, Seq<char>)|
                self.entries()[choose|i: int|
                    0 <= i < self.entries().len() && entry_key(#[trigger] self.entries()[i]) == key].factory,
        )
    }

    /// Whether a factory is registered for `kind` within `family`.
    pub open spec fn registered(&self, family: Family, kind: Seq<char>) -> bool {
        self@.contains_key((family, kind))
    }

    proof fn lemma_view_at(&self, i: int)
        requires
            self.wf(),
            0 <= i < self.entries().len(),
        ensures
            self@.contains_key(entry_key(self.entries()[i])),
            self@[entry_key(self.entries()[i])] == self.entries()[i].factory,
    {
        let key = entry_key(self.entries()[i]);
        assert(self.has_key(key));
        let j = choose|j: int|
            0 <= j < self.entries().len() && entry_key(#[trigger] self.entries()[j]) == key;
        assert(i == j);
    }

    /// Creates a registry with no factories.
    pub fn new() -> (r: Self)
        ensures
            r.wf(),
            r@ == Map::<(Family, Seq<char>), D>::empty(),
    {
        let r = Deserializers { entries: Vec::new() };
        assert(r@ =~= Map::<(Family, Seq<char>), D>::empty());
        r
    }

    /// Position of the registration for `family` and `kind`, if any.
    fn position(&self, family: Family, kind: &str) -> (r: Option<usize>)
        requires
            self.wf(),
        ensures
            match r {
                Some(i) => i < self.entries().len() && entry_key(self.entries()[i as int]) == (
                    family,
                    kind@,
                ),
                None => !self.has_key((family, kind@)),
            },
    {
        let mut i: usize = 0;
        while i < self.entries.len()
            invariant
                i <= self.entries().len(),
                forall|j: int| 0 <= j < i ==> entry_key(#[trigger] self.entries()[j]) != (family, kind@),
            decreases self.entries().len() - i,
        {
            let e = &self.entries[i];
            if e.family == family && e.kind.as_str().unicode_len() == kind.unicode_len() && str_eq(e.kind.as_str(), kind) {
                return Some(i);
            }
            i = i + 1;
        }
        None
    }

    /// The view after the entry at `c` was written with `key` and `d`, either
    /// in place of the entry for `key` or appended when there was none.
    proof fn lemma_view_after_write(pre: &Self, post: &Self, c: int, key: (Family, Seq<char>), d: D)
        requires
            pre.wf(),
            post.wf(),
            0 <= c <= pre.entries().len(),
            c < post.entries().len(),
            entry_key(post.entries()[c]) == key,
            post.entries()[c].factory == d,
            c < pre.entries().len() ==> entry_key(pre.entries()[c]) == key
                && post.entries().len() == pre.entries().len(),
            c == pre.entries().len() ==> post.entries().len() == pre.entries().len() + 1,
            forall|j: int| 0 <= j < post.entries().len() && j != c ==> post.entries()[j] == pre.entries()[j],
        ensures
            post@ == pre@.insert(key, d),
    {
        let p = pre.entries();
        let q = post.entries();
        assert forall|k: (Family, Seq<char>)| post.has_key(k) == pre@.insert(key, d).contains_key(k) by {
            if k != key && pre.has_key(k) {
                let j = choose|j: int| 0 <= j < p.len() && entry_key(#[trigger] p[j]) == k;
                assert(q[j] == p[j]);
            }
            if k == key {
                assert(entry_key(q[c]) == key);
            }
            if post.has_key(k) {
                let j = choose|j: int| 0 <= j < q.len() && entry_key(#[trigger] q[j]) == k;
                if j != c {
                    assert(q[j] == p[j]);
                }
            }
        }
        assert forall|k: (Family, Seq<char>)| post.has_key(k) implies #[trigger] post@[k] == pre@.insert(
            key,
            d,
        )[k] by {
            let j = choose|j: int| 0 <= j < q.len() && entry_key(#[trigger] q[j]) == k;
            post.lemma_view_at(j);
            if j != c {
                assert(q[j] == p[j]);
                pre.lemma_view_at(j);
            }
        }
        assert(post@ =~= pre@.insert(key, d));
    }

    /// Registers `deserializer` under `family` and `kind`. A later
    /// registration for the same family and kind replaces the earlier one.
    pub fn insert(&mut self, family: Family, kind: &str, deserializer: D)
        requires
            old(self).wf(),
        ensures
            final(self).wf(),
            final(self)@ == old(self)@.insert((family, kind@), deserializer),
    {
        let entry = Entry { family, kind: kind.to_owned(), factory: deserializer };
        match self.position(family, kind) {
            Some(i) => {
                self.entries.set(i, entry);
                proof {
                    Self::lemma_view_after_write(old(self), self, i as int, (family, kind@), deserializer);
                }
            },
            None => {
                let ghost c = self.entries().len();
                self.entries.push(entry);
                proof {
                    Self::lemma_view_after_write(old(self), self, c as int, (family, kind@), deserializer);
                }
            },
        }
    }

    /// The factory registered for `family` and `kind`, if any.
    pub fn get(&self, family: Family, kind: &str) -> (r: Option<&D>)
        requires
            self.wf(),
        ensures
            match r {
                Some(d) => self.registered(family, kind@) && *d == self@[(family, kind@)],
                None => !self.registered(family, kind@),
            },
    {
        match self.position(family, kind) {
            Some(i) => {
                proof {
                    self.lemma_view_at(i as int);
                }
                Some(&self.entries[i].factory)
            },
            None => None,
        }
    }
}

/// Character-wise equality of two strings of the same length.
fn str_eq(a: &str, b: &str) -> (r: bool)
    requires
        a@.len() == b@.len(),
    ensures
        r == (a@ == b@),
{
    let n = a.unicode_len();
    let mut i: usize = 0;
    while i < n
        invariant
            n == a@.len(),
            a@.len() == b@.len(),
            i <= n,
            forall|j: int| 0 <= j < i ==> a@[j] == b@[j],
        decreases n - i,
    {
        if a.get_char(i) != b.get_char(i) {
            return false;
        }
        i = i + 1;
    }
    assert(a@ =~= b@);
    true
}

impl<D: Deserialize> Deserializers<D> {
    /// Builds a component of `family` and `kind` from `config`: fails with
    /// `UnknownKind` exactly when no factory is registered for the pair, and
    /// otherwise returns what the registered factory returns.
    pub fn deserialize(&self, family: Family, kind: &str, config: D::Config) -> (r: Result<
        D::Output,
        DeserializeError,
    >)
        requires
            self.wf(),
        ensures
            !self.registered(family, kind@) <==> (r is Err && r->Err_0@ == DeserializeErrorView::UnknownKind(
                family,
                kind@,
            )),
            self.registered(family, kind@) ==> match r {
                Ok(o) => self@[(family, kind@)].builds(config, Ok(o)),
                Err(e) => e is Build && self@[(family, kind@)].builds(config, Err(e->Build_0)),
            },
    {
        match self.get(family, kind) {
            Some(d) => match d.deserialize(config, self) {
                Ok(c) => Ok(c),
                Err(msg) => Err(DeserializeError::Build(msg)),
            },
            None => Err(DeserializeError::UnknownKind { family, kind: kind.to_owned() }),
        }
    }
}

/// The component kinds that ship with the library's host programs.
#[derive(Clone, Copy, Debug, PartialEq, Eq, Structural)]
pub enum Builtin {
    ConsoleAppender,
    FileAppender,
    RollingFileAppender,
    CompoundPolicy,
    DeleteRoller,
    FixedWindowRoller,
    SizeTrigger,
    JsonEncoder,
    PatternEncoder,
    ThresholdFilter,
}

impl Builtin {
    pub open spec fn family_spec(self) -> Family {
        match self {
            Builtin::ConsoleAppender | Builtin::FileAppender | Builtin::RollingFileAppender => Family::Appender,
            Builtin::CompoundPolicy => Family::Policy,
            Builtin::DeleteRoller | Builtin::FixedWindowRoller => Family::Roller,
            Builtin::SizeTrigger => Family::Trigger,
            Builtin::JsonEncoder | Builtin::PatternEncoder => Family::Encoder,
            Builtin::ThresholdFilter => Family::Filter,
        }
    }

    pub open spec fn kind_spec(self) -> Seq<char> {
        match self {
            Builtin::ConsoleAppender => "console"@,
            Builtin::FileAppender => "file"@,
            Builtin::RollingFileAppender => "rolling_file"@,
            Builtin::CompoundPolicy => "compound"@,
            Builtin::DeleteRoller => "delete"@,
            Builtin::FixedWindowRoller => "fixed_window"@,
            Builtin::SizeTrigger => "size"@,
            Builtin::JsonEncoder => "json"@,
            Builtin::PatternEncoder => "pattern"@,
            Builtin::ThresholdFilter => "threshold"@,
        }
    }

    pub open spec fn key(self) -> (Family, Seq<char>) {
        (self.family_spec(), self.kind_spec())
    }

    pub fn family(&self) -> (r: Family)
        ensures
            r == self.family_spec(),
    {
        match self {
            Builtin::ConsoleAppender | Builtin::FileAppender | Builtin::RollingFileAppender => Family::Appender,
            Builtin::CompoundPolicy => Family::Policy,
            Builtin::DeleteRoller | Builtin::FixedWindowRoller => Family::Roller,
            Builtin::SizeTrigger => Family::Trigger,
            Builtin::JsonEncoder | Builtin::PatternEncoder => Family::Encoder,
            Builtin::ThresholdFilter => Family::Filter,
        }
    }

    pub fn kind(&self) -> (r: &'static str)
        ensures
            r@ == self.kind_spec(),
    {
        match self {
            Builtin::ConsoleAppender => "console",
            Builtin::FileAppender => "file",
            Builtin::RollingFileAppender => "rolling_file",
            Builtin::CompoundPolicy => "compound",
            Builtin::DeleteRoller => "delete",
            Builtin::FixedWindowRoller => "fixed_window",
            Builtin::SizeTrigger => "size",
            Builtin::JsonEncoder => "json",
            Builtin::PatternEncoder => "pattern",
            Builtin::ThresholdFilter => "threshold",
        }
    }
}

/// Every built-in kind, in registration order.
pub fn builtins() -> (r: Vec<Builtin>)
    ensures
        r@ == seq![
            Builtin::ConsoleAppender,
            Builtin::FileAppender,
            Builtin::RollingFileAppender,
            Builtin::CompoundPolicy,
            Builtin::DeleteRoller,
            Builtin::FixedWindowRoller,
            Builtin::SizeTrigger,
            Builtin::JsonEncoder,
            Builtin::PatternEncoder,
            Builtin::ThresholdFilter,
        ],
{
    let r = vec![
        Builtin::ConsoleAppender,
        Builtin::FileAppender,
        Builtin::RollingFileAppender,
        Builtin::CompoundPolicy,
        Builtin::DeleteRoller,
        Builtin::FixedWindowRoller,
        Builtin::SizeTrigger,
        Builtin::JsonEncoder,
        Builtin::PatternEncoder,
        Builtin::ThresholdFilter,
    ];
    assert(r@ =~= seq![
        Builtin::ConsoleAppender,
        Builtin::FileAppender,
        Builtin::RollingFileAppender,
        Builtin::CompoundPolicy,
        Builtin::DeleteRoller,
        Builtin::FixedWindowRoller,
        Builtin::SizeTrigger,
        Builtin::JsonEncoder,
        Builtin::PatternEncoder,
        Builtin::ThresholdFilter,
    ]);
    r
}

/// Distinct built-in kinds have distinct keys.
proof fn lemma_builtin_keys_distinct(a: Builtin, b: Builtin)
    requires
        a != b,
    ensures
        a.key() != b.key(),
{
    reveal_strlit("console");
    reveal_strlit("file");
    reveal_strlit("rolling_file");
    reveal_strlit("delete");
    reveal_strlit("fixed_window");
    reveal_strlit("json");
    reveal_strlit("pattern");
    assert("console"@.len() == 7);
    assert("file"@.len() == 4);
    assert("rolling_file"@.len() == 12);
    assert("delete"@.len() == 6);
    assert("fixed_window"@.len() == 12);
    assert("json"@.len() == 4);
    assert("pattern"@.len() == 7);
}

impl<D> Deserializers<D> {
    /// A registry of the built-in kinds that `make` provides: each built-in
    /// kind for which `make` returns a factory is registered under its
    /// family and kind, and nothing else is.
    pub fn with_builtins<F: Fn(Builtin) -> Option<D>>(make: F) -> (r: Self)
        requires
            forall|b: Builtin| make.requires((b,)),
        ensures
            r.wf(),
            forall|key: (Family, Seq<char>)|
                #[trigger] r@.contains_key(key) ==> exists|b: Builtin|
                    b.key() == key && #[trigger] make.ensures((b,), Some(r@[key])),
            forall|b: Builtin| !r@.contains_key(b.key()) ==> #[trigger] make.ensures((b,), None::<D>),
    {
        let all = builtins();
        let mut r = Deserializers::new();
        let mut i: usize = 0;
        while i < all.len()
            invariant
                i <= all@.len(),
                all@.len() == 10,
                all@ == builtins_seq(),
                forall|b: Builtin| make.requires((b,)),
                r.wf(),
                forall|key: (Family, Seq<char>)|
                    #[trigger] r@.contains_key(key) ==> exists|j: int|
                        0 <= j < i && all@[j].key() == key && #[trigger] make.ensures((all@[j],), Some(r@[key])),
                forall|j: int|
                    0 <= j < i && !r@.contains_key(#[trigger] all@[j].key()) ==> make.ensures((all@[j],), None::<D>),
            decreases all@.len() - i,
        {
            let b = all[i];
            let ghost pre = r@;
            proof {
                assert forall|j: int| 0 <= j < i implies all@[j].key() != b.key() by {
                    assert(all@[j] != b);
                    lemma_builtin_keys_distinct(all@[j], b);
                }
            }
            let made = make(b);
            match made {
                Some(d) => {
                    r.insert(b.family(), b.kind(), d);
                    assert forall|j: int|
                        0 <= j < i + 1 && !r@.contains_key(#[trigger] all@[j].key()) implies make.ensures(
                        (all@[j],),
                        None::<D>,
                    ) by {
                        assert(pre.contains_key(all@[j].key()) ==> r@.contains_key(all@[j].key()));
                    }
                    assert forall|key: (Family, Seq<char>)| #[trigger] r@.contains_key(key) implies exists|j: int|
                        0 <= j < i + 1 && all@[j].key() == key && #[trigger] make.ensures(
                            (all@[j],),
                            Some(r@[key]),
                        ) by {
                        if key == b.key() {
                            assert(all@[i as int].key() == key);
                            assert(r@[key] == d);
                            assert(make.ensures((all@[i as int],), Some(r@[key])));
                        } else {
                            assert(pre.contains_key(key));
                            let j = choose|j: int|
                                0 <= j < i && all@[j].key() == key && #[trigger] make.ensures(
                                    (all@[j],),
                                    Some(pre[key]),
                                );
                            assert(r@[key] == pre[key]);
                            assert(make.ensures((all@[j],), Some(r@[key])));
                        }
                    }
                },
                None => {},
            }
            i = i + 1;
        }
        assert forall|key: (Family, Seq<char>)| #[trigger] r@.contains_key(key) implies exists|b: Builtin|
            b.key() == key && #[trigger] make.ensures((b,), Some(r@[key])) by {
            let j = choose|j: int|
                0 <= j < 10 && all@[j].key() == key && #[trigger] make.ensures((all@[j],), Some(r@[key]));
            assert(make.ensures((all@[j],), Some(r@[key])));
        }
        assert forall|b: Builtin| !r@.contains_key(b.key()) implies #[trigger] make.ensures((b,), None::<D>) by {
            let j: int = match b {
                Builtin::ConsoleAppender => 0,
                Builtin::FileAppender => 1,
                Builtin::RollingFileAppender => 2,
                Builtin::CompoundPolicy => 3,
                Builtin::DeleteRoller => 4,
                Builtin::FixedWindowRoller => 5,
                Builtin::SizeTrigger => 6,
                Builtin::JsonEncoder => 7,
                Builtin::PatternEncoder => 8,
                Builtin::ThresholdFilter => 9,
            };
            assert(all@[j] == b);
        }
        r
    }
}

pub open spec fn builtins_seq() -> Seq<Builtin> {
    seq![
        Builtin::ConsoleAppender,
        Builtin::FileAppender,
        Builtin::RollingFileAppender,
        Builtin::CompoundPolicy,
        Builtin::DeleteRoller,
        Builtin::FixedWindowRoller,
        Builtin::SizeTrigger,
        Builtin::JsonEncoder,
        Builtin::PatternEncoder,
        Builtin::ThresholdFilter,
    ]
}

/// Registering a second factory under the same family and kind replaces the
/// first: lookups and builds then go to the second one only.
pub proof fn lemma_last_registration_wins<D>(
    reg: Deserializers<D>,
    family: Family,
    kind: Seq<char>,
    first: D,
    second: D,
)
    ensures
        reg@.insert((family, kind), first).insert((family, kind), second) == reg@.insert(
            (family, kind),
            second,
        ),
        reg@.insert((family, kind), first).insert((family, kind), second)[(family, kind)] == second,
{
    assert(reg@.insert((family, kind), first).insert((family, kind), second) =~= reg@.insert(
        (family, kind),
        second,
    ));
}

} // verus!
