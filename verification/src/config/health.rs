//! Health checks, lifecycle hooks and the registries of both.

use crate::config::duration::{parse_duration, parsed_duration};
use crate::config::error::{
    mismatch_fault, ConfigError, DurationField, ErrorKind, Fault, Problem,
};
use crate::config::node::{entry, find_field, CfgNode, CfgValue, Shape};
use crate::config::proc::preferred;
use crate::config::registry::Registry;
use crate::text::{decimal, decimal_string, str_eq};
use vstd::prelude::*;

verus! {

/// A command that tells whether a process is healthy. Durations are in
/// milliseconds.
#[derive(Debug)]
pub struct HealthCheckDef {
    pub name: String,
    pub cmd: String,
    pub interval: u64,
    pub timeout: u64,
    pub start_period: u64,
    pub retries: u32,
    pub min_passes: u32,
}

/// A health check, by its characters.
#[verifier::ext_equal]
pub struct HealthCheckModel {
    pub name: Seq<char>,
    pub cmd: Seq<char>,
    pub interval: u64,
    pub timeout: u64,
    pub start_period: u64,
    pub retries: u32,
    pub min_passes: u32,
}

impl View for HealthCheckDef {
    type V = HealthCheckModel;

    open spec fn view(&self) -> HealthCheckModel {
        HealthCheckModel {
            name: self.name@,
            cmd: self.cmd@,
            interval: self.interval,
            timeout: self.timeout,
            start_period: self.start_period,
            retries: self.retries,
            min_passes: self.min_passes,
        }
    }
}

impl Clone for HealthCheckDef {
    fn clone(&self) -> (r: Self)
        ensures
            r == *self,
    {
        HealthCheckDef {
            name: self.name.clone(),
            cmd: self.cmd.clone(),
            interval: self.interval,
            timeout: self.timeout,
            start_period: self.start_period,
            retries: self.retries,
            min_passes: self.min_passes,
        }
    }
}

pub const DEFAULT_INTERVAL: u64 = 10_000;

pub const DEFAULT_TIMEOUT: u64 = 5_000;

pub const DEFAULT_START_PERIOD: u64 = 0;

pub const DEFAULT_RETRIES: u32 = 3;

pub const DEFAULT_MIN_PASSES: u32 = 1;

/// The text of a field that has to be there.
pub open spec fn text_field(
    node: CfgNode,
    key: Seq<char>,
    missing: Problem,
) -> Result<Seq<char>, Fault> {
    match entry(node.fields(), key) {
        None => Err(Fault { mark: node.mark, problem: missing }),
        Some(v) => if v.value is Text {
            Ok(v.text())
        } else {
            Err(mismatch_fault(v.mismatch(Shape::Text)))
        },
    }
}

pub open spec fn duration_field(node: CfgNode, field: DurationField, default: u64) -> Result<
    u64,
    Fault,
> {
    match entry(node.fields(), field.key()) {
        None => Ok(default),
        Some(v) => if v.value is Text {
            match parsed_duration(v.text()) {
                Ok(ms) => Ok(ms),
                Err(e) => Err(
                    Fault { mark: v.mark, problem: Problem::InvalidDuration(field, e) },
                ),
            }
        } else {
            Err(mismatch_fault(v.mismatch(Shape::Text)))
        },
    }
}

/// The low 32 bits of a count.
pub open spec fn low_u32(n: usize) -> u32 {
    (n as nat % 0x1_0000_0000) as u32
}

pub open spec fn count_field(node: CfgNode, key: Seq<char>, default: u32) -> Result<u32, Fault> {
    match entry(node.fields(), key) {
        None => Ok(default),
        Some(v) => match v.count() {
            Some(n) => Ok(low_u32(n)),
            None => Err(mismatch_fault(v.mismatch(Shape::Number))),
        },
    }
}

pub open spec fn at_least_one(n: u32) -> u32 {
    if n > 1 {
        n
    } else {
        1
    }
}

/// The health check that a mapping defines, without a name.
pub open spec fn health_check(node: CfgNode) -> Result<HealthCheckModel, Fault> {
    if !(node.value is Object) {
        Err(mismatch_fault(node.mismatch(Shape::Mapping)))
    } else {
        match text_field(node, "cmd"@, Problem::HealthcheckNeedsCmd) {
            Err(f) => Err(f),
            Ok(cmd) => match duration_field(node, DurationField::Interval, DEFAULT_INTERVAL) {
                Err(f) => Err(f),
                Ok(interval) => match duration_field(
                    node,
                    DurationField::Timeout,
                    DEFAULT_TIMEOUT,
                ) {
                    Err(f) => Err(f),
                    Ok(timeout) => match duration_field(
                        node,
                        DurationField::StartPeriod,
                        DEFAULT_START_PERIOD,
                    ) {
                        Err(f) => Err(f),
                        Ok(start_period) => match count_field(
                            node,
                            "retries"@,
                            DEFAULT_RETRIES,
                        ) {
                            Err(f) => Err(f),
                            Ok(retries) => match count_field(
                                node,
                                "min_passes"@,
                                DEFAULT_MIN_PASSES,
                            ) {
                                Err(f) => Err(f),
                                Ok(min_passes) => Ok(
                                    HealthCheckModel {
                                        name: Seq::empty(),
                                        cmd,
                                        interval,
                                        timeout,
                                        start_period,
                                        retries,
                                        min_passes: at_least_one(min_passes),
                                    },
                                ),
                            },
                        },
                    },
                },
            },
        }
    }
}

fn read_text(node: &CfgNode, key: &str, missing: ErrorKind) -> (r: Result<String, ConfigError>)
    requires
        node.value is Object,
    ensures
        match r {
            Ok(s) => text_field(*node, key@, missing@) == Ok::<Seq<char>, Fault>(s@),
            Err(e) => text_field(*node, key@, missing@) == Err::<Seq<char>, Fault>(e@),
        },
{
    let fields = match node.as_obj() {
        Ok(fields) => fields,
        Err(e) => {
            return Err(ConfigError::expected(e));
        },
    };
    match find_field(fields, key) {
        None => Err(ConfigError::at(node.mark, missing)),
        Some(v) => match v.as_str() {
            Ok(s) => Ok(s.to_owned()),
            Err(e) => Err(ConfigError::expected(e)),
        },
    }
}

fn read_duration(node: &CfgNode, field: DurationField, default: u64) -> (r: Result<
    u64,
    ConfigError,
>)
    requires
        node.value is Object,
    ensures
        match r {
            Ok(ms) => duration_field(*node, field, default) == Ok::<u64, Fault>(ms),
            Err(e) => duration_field(*node, field, default) == Err::<u64, Fault>(e@),
        },
{
    let fields = match node.as_obj() {
        Ok(fields) => fields,
        Err(e) => {
            return Err(ConfigError::expected(e));
        },
    };
    match find_field(fields, field.name()) {
        None => Ok(default),
        Some(v) => match v.as_str() {
            Ok(s) => match parse_duration(s) {
                Ok(ms) => Ok(ms),
                Err(e) => Err(ConfigError::at(v.mark, ErrorKind::InvalidDuration(field, e))),
            },
            Err(e) => Err(ConfigError::expected(e)),
        },
    }
}

fn truncate_u32(n: usize) -> (r: u32)
    ensures
        r == low_u32(n),
{
    let wide: u64 = n as u64;
    proof {
        assert(wide as u32 == wide % 0x1_0000_0000u64) by (bit_vector);
    }
    wide as u32
}

fn read_count(node: &CfgNode, key: &str, default: u32) -> (r: Result<u32, ConfigError>)
    requires
        node.value is Object,
    ensures
        match r {
            Ok(n) => count_field(*node, key@, default) == Ok::<u32, Fault>(n),
            Err(e) => count_field(*node, key@, default) == Err::<u32, Fault>(e@),
        },
{
    let fields = match node.as_obj() {
        Ok(fields) => fields,
        Err(e) => {
            return Err(ConfigError::expected(e));
        },
    };
    match find_field(fields, key) {
        None => Ok(default),
        Some(v) => match v.as_usize() {
            Ok(n) => Ok(truncate_u32(n)),
            Err(e) => Err(ConfigError::expected(e)),
        },
    }
}

impl HealthCheckDef {
    pub open spec fn default_model() -> HealthCheckModel {
        HealthCheckModel {
            name: Seq::empty(),
            cmd: Seq::empty(),
            interval: DEFAULT_INTERVAL,
            timeout: DEFAULT_TIMEOUT,
            start_period: DEFAULT_START_PERIOD,
            retries: DEFAULT_RETRIES,
            min_passes: DEFAULT_MIN_PASSES,
        }
    }

    pub fn defaults() -> (r: Self)
        ensures
            r@ == Self::default_model(),
    {
        HealthCheckDef {
            name: String::new(),
            cmd: String::new(),
            interval: DEFAULT_INTERVAL,
            timeout: DEFAULT_TIMEOUT,
            start_period: DEFAULT_START_PERIOD,
            retries: DEFAULT_RETRIES,
            min_passes: DEFAULT_MIN_PASSES,
        }
    }

    /// Reads a mapping; `cmd` has to be there.
    pub fn from_node(node: &CfgNode) -> (r: Result<Self, ConfigError>)
        ensures
            match r {
                Ok(def) => health_check(*node) == Ok::<HealthCheckModel, Fault>(def@),
                Err(e) => health_check(*node) == Err::<HealthCheckModel, Fault>(e@),
            },
    {
        match node.as_obj() {
            Ok(_) => {},
            Err(e) => {
                return Err(ConfigError::expected(e));
            },
        }
        let mut def = HealthCheckDef::defaults();
        match read_text(node, "cmd", ErrorKind::HealthcheckNeedsCmd) {
            Ok(cmd) => {
                def.cmd = cmd;
            },
            Err(e) => {
                return Err(e);
            },
        }
        match read_duration(node, DurationField::Interval, def.interval) {
            Ok(ms) => {
                def.interval = ms;
            },
            Err(e) => {
                return Err(e);
            },
        }
        match read_duration(node, DurationField::Timeout, def.timeout) {
            Ok(ms) => {
                def.timeout = ms;
            },
            Err(e) => {
                return Err(e);
            },
        }
        match read_duration(node, DurationField::StartPeriod, def.start_period) {
            Ok(ms) => {
                def.start_period = ms;
            },
            Err(e) => {
                return Err(e);
            },
        }
        match read_count(node, "retries", def.retries) {
            Ok(n) => {
                def.retries = n;
            },
            Err(e) => {
                return Err(e);
            },
        }
        match read_count(node, "min_passes", def.min_passes) {
            Ok(n) => {
                def.min_passes = if n > 1 {
                    n
                } else {
                    1
                };
            },
            Err(e) => {
                return Err(e);
            },
        }
        proof {
            assert(def@.name =~= Seq::empty());
        }
        Ok(def)
    }

    /// Reads a mapping of the classic configuration, which is written the same
    /// way.
    pub fn from_val(val: &CfgNode) -> (r: Result<Self, ConfigError>)
        ensures
            match r {
                Ok(def) => health_check(*val) == Ok::<HealthCheckModel, Fault>(def@),
                Err(e) => health_check(*val) == Err::<HealthCheckModel, Fault>(e@),
            },
    {
        HealthCheckDef::from_node(val)
    }
}

/// Named health checks.
pub type HealthCheckRegistry = Registry<HealthCheckDef>;

/// The models of named health checks.
pub open spec fn check_models(m: Map<Seq<char>, HealthCheckDef>) -> Map<
    Seq<char>,
    HealthCheckModel,
> {
    m.map_values(|d: HealthCheckDef| d@)
}

/// The health checks of the first `n` fields, each under its key.
pub open spec fn named_checks(fields: Seq<(String, CfgNode)>, n: nat) -> Result<
    Map<Seq<char>, HealthCheckModel>,
    Fault,
>
    decreases n,
{
    if n == 0 {
        Ok(Map::empty())
    } else {
        match named_checks(fields, (n - 1) as nat) {
            Err(f) => Err(f),
            Ok(before) => match health_check(fields[n - 1].1) {
                Err(f) => Err(f),
                Ok(def) => {
                    let key = fields[n - 1].0@;
                    Ok(before.insert(key, HealthCheckModel { name: key, ..def }))
                },
            },
        }
    }
}

pub open spec fn check_registry(node: CfgNode) -> Result<Map<Seq<char>, HealthCheckModel>, Fault> {
    if node.value is Object {
        named_checks(node.fields(), node.fields().len())
    } else {
        Err(mismatch_fault(node.mismatch(Shape::Mapping)))
    }
}

proof fn lemma_named_checks_error(fields: Seq<(String, CfgNode)>, i: nat, n: nat)
    requires
        i <= n,
        named_checks(fields, i) is Err,
    ensures
        named_checks(fields, n) == named_checks(fields, i),
    decreases n,
{
    if i < n {
        lemma_named_checks_error(fields, i, (n - 1) as nat);
    }
}

/// Reads the named health checks of a configuration.
pub fn parse_registry(node: &CfgNode) -> (r: Result<HealthCheckRegistry, ConfigError>)
    ensures
        match r {
            Ok(reg) => reg.wf() && check_registry(*node) == Ok::<
                Map<Seq<char>, HealthCheckModel>,
                Fault,
            >(check_models(reg@)),
            Err(e) => check_registry(*node) == Err::<Map<Seq<char>, HealthCheckModel>, Fault>(e@),
        },
{
    let fields = match node.as_obj() {
        Ok(fields) => fields,
        Err(e) => {
            return Err(ConfigError::expected(e));
        },
    };
    let mut out: HealthCheckRegistry = Registry::new();
    let mut i: usize = 0;
    proof {
        assert(check_models(out@) =~= Map::empty());
    }
    while i < fields.len()
        invariant
            i <= fields@.len(),
            out.wf(),
            node.value is Object,
            fields@ == node.fields(),
            named_checks(fields@, i as nat) == Ok::<Map<Seq<char>, HealthCheckModel>, Fault>(
                check_models(out@),
            ),
        decreases fields@.len() - i,
    {
        match HealthCheckDef::from_node(&fields[i].1) {
            Ok(def) => {
                let mut def = def;
                def.name = fields[i].0.clone();
                let ghost before = out@;
                let ghost model = def@;
                out.insert(fields[i].0.clone(), def);
                proof {
                    assert(check_models(out@) =~= check_models(before).insert(
                        fields@[i as int].0@,
                        model,
                    ));
                }
            },
            Err(e) => {
                proof {
                    lemma_named_checks_error(fields@, (i + 1) as nat, fields@.len());
                }
                return Err(e);
            },
        }
        i += 1;
    }
    Ok(out)
}

/// The name of the `n`-th health check that is written out in place.
pub open spec fn inline_name(n: nat) -> Seq<char> {
    "inline["@ + decimal(n) + "]"@
}

/// The health checks of a list so far, and how many were written out.
#[verifier::ext_equal]
pub struct CheckList {
    pub checks: Seq<HealthCheckModel>,
    pub inline: nat,
}

/// The health checks that the first `n` items stand for: a name refers to the
/// registry, a mapping is a check of its own.
pub open spec fn listed_checks(
    items: Seq<CfgNode>,
    registry: Map<Seq<char>, HealthCheckModel>,
    n: nat,
) -> Result<CheckList, Fault>
    decreases n,
{
    if n == 0 {
        Ok(CheckList { checks: Seq::empty(), inline: 0 })
    } else {
        let item = items[n - 1];
        match listed_checks(items, registry, (n - 1) as nat) {
            Err(f) => Err(f),
            Ok(before) => match item.value {
                CfgValue::Text(_) => if registry.dom().contains(item.text()) {
                    Ok(
                        CheckList {
                            checks: before.checks.push(registry[item.text()]),
                            inline: before.inline,
                        },
                    )
                } else {
                    Err(
                        Fault {
                            mark: item.mark,
                            problem: Problem::UnknownHealthcheck(item.text()),
                        },
                    )
                },
                CfgValue::Object(_) => match health_check(item) {
                    Err(f) => Err(f),
                    Ok(def) => Ok(
                        CheckList {
                            checks: before.checks.push(
                                HealthCheckModel { name: inline_name(before.inline), ..def },
                            ),
                            inline: before.inline + 1,
                        },
                    ),
                },
                _ => Err(Fault { mark: item.mark, problem: Problem::BadHealthcheck }),
            },
        }
    }
}

pub open spec fn proc_checks(node: CfgNode, registry: Map<Seq<char>, HealthCheckModel>) -> Result<
    Seq<HealthCheckModel>,
    Fault,
> {
    if node.value is List {
        match listed_checks(node.items(), registry, node.items().len()) {
            Ok(list) => Ok(list.checks),
            Err(f) => Err(f),
        }
    } else {
        Err(mismatch_fault(node.mismatch(Shape::List)))
    }
}

proof fn lemma_listed_checks_error(
    items: Seq<CfgNode>,
    registry: Map<Seq<char>, HealthCheckModel>,
    i: nat,
    n: nat,
)
    requires
        i <= n,
        listed_checks(items, registry, i) is Err,
    ensures
        listed_checks(items, registry, n) == listed_checks(items, registry, i),
    decreases n,
{
    if i < n {
        lemma_listed_checks_error(items, registry, i, (n - 1) as nat);
    }
}

pub open spec fn check_views(defs: Seq<HealthCheckDef>) -> Seq<HealthCheckModel> {
    defs.map_values(|d: HealthCheckDef| d@)
}

/// Copies checks.
pub fn clone_checks(defs: &Vec<HealthCheckDef>) -> (r: Vec<HealthCheckDef>)
    ensures
        r@ == defs@,
{
    let mut out: Vec<HealthCheckDef> = Vec::new();
    let mut i: usize = 0;
    while i < defs.len()
        invariant
            i <= defs@.len(),
            out@ == defs@.take(i as int),
        decreases defs@.len() - i,
    {
        out.push(defs[i].clone());
        proof {
            assert(defs@.take(i + 1) =~= defs@.take(i as int).push(defs@[i as int]));
        }
        i += 1;
    }
    proof {
        assert(defs@.take(i as int) =~= defs@);
    }
    out
}

/// Reads the health checks of a process.
pub fn parse_proc_healthchecks(node: &CfgNode, registry: &HealthCheckRegistry) -> (r: Result<
    Vec<HealthCheckDef>,
    ConfigError,
>)
    requires
        registry.wf(),
    ensures
        match r {
            Ok(defs) => proc_checks(*node, check_models(registry@)) == Ok::<
                Seq<HealthCheckModel>,
                Fault,
            >(check_views(defs@)),
            Err(e) => proc_checks(*node, check_models(registry@)) == Err::<
                Seq<HealthCheckModel>,
                Fault,
            >(e@),
        },
{
    let items = match node.as_arr() {
        Ok(items) => items,
        Err(e) => {
            return Err(ConfigError::expected(e));
        },
    };
    let ghost reg = check_models(registry@);
    let mut out: Vec<HealthCheckDef> = Vec::new();
    let mut inline_seq: usize = 0;
    let mut i: usize = 0;
    proof {
        assert(check_views(out@) =~= Seq::empty());
    }
    while i < items.len()
        invariant
            i <= items@.len(),
            inline_seq <= i,
            registry.wf(),
            reg == check_models(registry@),
            node.value is List,
            items@ == node.items(),
            listed_checks(items@, reg, i as nat) == Ok::<CheckList, Fault>(
                CheckList { checks: check_views(out@), inline: inline_seq as nat },
            ),
        decreases items@.len() - i,
    {
        let item = &items[i];
        let ghost before = check_views(out@);
        if item.is_string() {
            let name = match item.as_str() {
                Ok(name) => name,
                Err(e) => {
                    return Err(ConfigError::expected(e));
                },
            };
            match registry.get(name) {
                Some(def) => {
                    out.push(def.clone());
                    proof {
                        assert(reg[name@] == def@);
                        assert(check_views(out@) =~= before.push(def@));
                    }
                },
                None => {
                    proof {
                        lemma_listed_checks_error(items@, reg, (i + 1) as nat, items@.len());
                    }
                    return Err(
                        ConfigError::at(item.mark, ErrorKind::UnknownHealthcheck(name.to_owned())),
                    );
                },
            }
        } else if item.is_mapping() {
            match HealthCheckDef::from_node(item) {
                Ok(def) => {
                    let mut def = def;
                    let mut name = String::new();
                    name.append("inline[");
                    let digits = decimal_string(inline_seq as u64);
                    name.append(digits.as_str());
                    name.append("]");
                    proof {
                        assert(name@ =~= inline_name(inline_seq as nat));
                    }
                    def.name = name;
                    inline_seq += 1;
                    let ghost model = def@;
                    out.push(def);
                    proof {
                        assert(check_views(out@) =~= before.push(model));
                    }
                },
                Err(e) => {
                    proof {
                        lemma_listed_checks_error(items@, reg, (i + 1) as nat, items@.len());
                    }
                    return Err(e);
                },
            }
        } else {
            proof {
                lemma_listed_checks_error(items@, reg, (i + 1) as nat, items@.len());
            }
            return Err(ConfigError::at(item.mark, ErrorKind::BadHealthcheck));
        }
        i += 1;
    }
    Ok(out)
}

/// A point in the lifecycle of a process at which a hook can run.
#[derive(Clone, Copy, Debug, Eq, Hash, PartialEq, Structural)]
pub enum HookEvent {
    Started,
    /// The process is about to be reported as running: it was started and has
    /// no health checks, or all of them pass, for the first time or again.
    Running,
    Unhealthy,
    Stopped,
    Failed,
}

impl HookEvent {
    pub open spec fn text(self) -> Seq<char> {
        match self {
            HookEvent::Started => "started"@,
            HookEvent::Running => "running"@,
            HookEvent::Unhealthy => "unhealthy"@,
            HookEvent::Stopped => "stopped"@,
            HookEvent::Failed => "failed"@,
        }
    }

    /// The event that `s` names.
    pub open spec fn named(s: Seq<char>) -> Option<HookEvent> {
        if s == "started"@ {
            Some(HookEvent::Started)
        } else if s == "running"@ {
            Some(HookEvent::Running)
        } else if s == "unhealthy"@ {
            Some(HookEvent::Unhealthy)
        } else if s == "stopped"@ {
            Some(HookEvent::Stopped)
        } else if s == "failed"@ {
            Some(HookEvent::Failed)
        } else {
            None
        }
    }

    /// Every event is read back from its label.
    pub proof fn label_names_the_event(self)
        ensures
            HookEvent::named(self.text()) == Some(self),
    {
        reveal_strlit("started");
        reveal_strlit("running");
        reveal_strlit("unhealthy");
        reveal_strlit("stopped");
        reveal_strlit("failed");
        assert("started"@[1] == 't' && "running"@[1] == 'u' && "unhealthy"@[1] == 'n');
        assert("stopped"@[2] == 'o' && "started"@[2] == 'a');
        assert("failed"@[1] == 'a' && "stopped"@[1] == 't');
    }

    pub fn parse(s: &str) -> (r: Option<Self>)
        ensures
            r == HookEvent::named(s@),
    {
        if str_eq(s, "started") {
            Some(HookEvent::Started)
        } else if str_eq(s, "running") {
            Some(HookEvent::Running)
        } else if str_eq(s, "unhealthy") {
            Some(HookEvent::Unhealthy)
        } else if str_eq(s, "stopped") {
            Some(HookEvent::Stopped)
        } else if str_eq(s, "failed") {
            Some(HookEvent::Failed)
        } else {
            None
        }
    }

    pub fn from_str(s: &str) -> (r: Option<Self>)
        ensures
            r == HookEvent::named(s@),
    {
        HookEvent::parse(s)
    }

    pub fn label(self) -> (r: &'static str)
        ensures
            r@ == self.text(),
    {
        match self {
            HookEvent::Started => "started",
            HookEvent::Running => "running",
            HookEvent::Unhealthy => "unhealthy",
            HookEvent::Stopped => "stopped",
            HookEvent::Failed => "failed",
        }
    }
}

/// A command that runs at a point in the lifecycle.
#[derive(Debug)]
pub struct HookDef {
    pub cmd: String,
    /// The hook runs detached and never holds a transition up.
    pub async_: bool,
}

/// A hook, by its characters.
#[verifier::ext_equal]
pub struct HookModel {
    pub cmd: Seq<char>,
    pub async_: bool,
}

impl View for HookDef {
    type V = HookModel;

    open spec fn view(&self) -> HookModel {
        HookModel { cmd: self.cmd@, async_: self.async_ }
    }
}

impl Clone for HookDef {
    fn clone(&self) -> (r: Self)
        ensures
            r == *self,
    {
        HookDef { cmd: self.cmd.clone(), async_: self.async_ }
    }
}

/// The hook that a mapping defines.
pub open spec fn hook(node: CfgNode) -> Result<HookModel, Fault> {
    if !(node.value is Object) {
        Err(mismatch_fault(node.mismatch(Shape::Mapping)))
    } else {
        match text_field(node, "cmd"@, Problem::HookNeedsCmd) {
            Err(f) => Err(f),
            Ok(cmd) => match entry(node.fields(), "async"@) {
                None => Ok(HookModel { cmd, async_: false }),
                Some(v) => match v.value {
                    CfgValue::Bool(b) => Ok(HookModel { cmd, async_: b }),
                    _ => Err(mismatch_fault(v.mismatch(Shape::Boolean))),
                },
            },
        }
    }
}

impl HookDef {
    pub fn from_node(node: &CfgNode) -> (r: Result<Self, ConfigError>)
        ensures
            match r {
                Ok(def) => hook(*node) == Ok::<HookModel, Fault>(def@),
                Err(e) => hook(*node) == Err::<HookModel, Fault>(e@),
            },
    {
        let fields = match node.as_obj() {
            Ok(fields) => fields,
            Err(e) => {
                return Err(ConfigError::expected(e));
            },
        };
        let cmd = match read_text(node, "cmd", ErrorKind::HookNeedsCmd) {
            Ok(cmd) => cmd,
            Err(e) => {
                return Err(e);
            },
        };
        let async_ = match find_field(fields, "async") {
            Some(v) => match v.as_bool() {
                Ok(b) => b,
                Err(e) => {
                    return Err(ConfigError::expected(e));
                },
            },
            None => false,
        };
        Ok(HookDef { cmd, async_ })
    }

    /// Reads a mapping of the classic configuration, which is written the same
    /// way.
    pub fn from_val(val: &CfgNode) -> (r: Result<Self, ConfigError>)
        ensures
            match r {
                Ok(def) => hook(*val) == Ok::<HookModel, Fault>(def@),
                Err(e) => hook(*val) == Err::<HookModel, Fault>(e@),
            },
    {
        HookDef::from_node(val)
    }
}

/// Named hooks.
pub type HookRegistry = Registry<HookDef>;

pub open spec fn hook_models(m: Map<Seq<char>, HookDef>) -> Map<Seq<char>, HookModel> {
    m.map_values(|d: HookDef| d@)
}

pub open spec fn named_hooks(fields: Seq<(String, CfgNode)>, n: nat) -> Result<
    Map<Seq<char>, HookModel>,
    Fault,
>
    decreases n,
{
    if n == 0 {
        Ok(Map::empty())
    } else {
        match named_hooks(fields, (n - 1) as nat) {
            Err(f) => Err(f),
            Ok(before) => match hook(fields[n - 1].1) {
                Err(f) => Err(f),
                Ok(def) => Ok(before.insert(fields[n - 1].0@, def)),
            },
        }
    }
}

pub open spec fn hook_registry(node: CfgNode) -> Result<Map<Seq<char>, HookModel>, Fault> {
    if node.value is Object {
        named_hooks(node.fields(), node.fields().len())
    } else {
        Err(mismatch_fault(node.mismatch(Shape::Mapping)))
    }
}

proof fn lemma_named_hooks_error(fields: Seq<(String, CfgNode)>, i: nat, n: nat)
    requires
        i <= n,
        named_hooks(fields, i) is Err,
    ensures
        named_hooks(fields, n) == named_hooks(fields, i),
    decreases n,
{
    if i < n {
        lemma_named_hooks_error(fields, i, (n - 1) as nat);
    }
}

/// Reads the named hooks of a configuration.
pub fn parse_hook_registry(node: &CfgNode) -> (r: Result<HookRegistry, ConfigError>)
    ensures
        match r {
            Ok(reg) => reg.wf() && hook_registry(*node) == Ok::<Map<Seq<char>, HookModel>, Fault>(
                hook_models(reg@),
            ),
            Err(e) => hook_registry(*node) == Err::<Map<Seq<char>, HookModel>, Fault>(e@),
        },
{
    let fields = match node.as_obj() {
        Ok(fields) => fields,
        Err(e) => {
            return Err(ConfigError::expected(e));
        },
    };
    let mut out: HookRegistry = Registry::new();
    let mut i: usize = 0;
    proof {
        assert(hook_models(out@) =~= Map::empty());
    }
    while i < fields.len()
        invariant
            i <= fields@.len(),
            out.wf(),
            node.value is Object,
            fields@ == node.fields(),
            named_hooks(fields@, i as nat) == Ok::<Map<Seq<char>, HookModel>, Fault>(
                hook_models(out@),
            ),
        decreases fields@.len() - i,
    {
        match HookDef::from_node(&fields[i].1) {
            Ok(def) => {
                let ghost before = out@;
                let ghost model = def@;
                out.insert(fields[i].0.clone(), def);
                proof {
                    assert(hook_models(out@) =~= hook_models(before).insert(
                        fields@[i as int].0@,
                        model,
                    ));
                }
            },
            Err(e) => {
                proof {
                    lemma_named_hooks_error(fields@, (i + 1) as nat, fields@.len());
                }
                return Err(e);
            },
        }
        i += 1;
    }
    Ok(out)
}

/// The hooks of a process.
#[derive(Debug)]
pub struct HookSet {
    pub started: Option<HookDef>,
    pub running: Option<HookDef>,
    pub unhealthy: Option<HookDef>,
    pub stopped: Option<HookDef>,
    pub failed: Option<HookDef>,
}

/// The hooks by event.
pub open spec fn hook_view(def: Option<HookDef>) -> Option<HookModel> {
    match def {
        Some(d) => Some(d@),
        None => None,
    }
}

/// A hook set, by event and characters.
pub struct HookSetModel {
    pub started: Option<HookModel>,
    pub running: Option<HookModel>,
    pub unhealthy: Option<HookModel>,
    pub stopped: Option<HookModel>,
    pub failed: Option<HookModel>,
}

impl View for HookSet {
    type V = HookSetModel;

    open spec fn view(&self) -> HookSetModel {
        HookSetModel {
            started: hook_view(self.started),
            running: hook_view(self.running),
            unhealthy: hook_view(self.unhealthy),
            stopped: hook_view(self.stopped),
            failed: hook_view(self.failed),
        }
    }
}

fn clone_hook(def: &Option<HookDef>) -> (r: Option<HookDef>)
    ensures
        r == *def,
{
    match def {
        Some(d) => Some(d.clone()),
        None => None,
    }
}

impl Clone for HookSet {
    fn clone(&self) -> (r: Self)
        ensures
            r == *self,
    {
        HookSet {
            started: clone_hook(&self.started),
            running: clone_hook(&self.running),
            unhealthy: clone_hook(&self.unhealthy),
            stopped: clone_hook(&self.stopped),
            failed: clone_hook(&self.failed),
        }
    }
}

impl Default for HookSet {
    fn default() -> (r: Self)
        ensures
            r@ == HookSetModel::none(),
    {
        HookSet { started: None, running: None, unhealthy: None, stopped: None, failed: None }
    }
}

impl HookSetModel {
    pub open spec fn none() -> HookSetModel {
        HookSetModel { started: None, running: None, unhealthy: None, stopped: None, failed: None }
    }

    pub open spec fn at(self, event: HookEvent) -> Option<HookModel> {
        match event {
            HookEvent::Started => self.started,
            HookEvent::Running => self.running,
            HookEvent::Unhealthy => self.unhealthy,
            HookEvent::Stopped => self.stopped,
            HookEvent::Failed => self.failed,
        }
    }

    /// The hooks of `over`, and those of `self` for the events that it lacks.
    pub open spec fn overlaid(self, over: HookSetModel) -> HookSetModel {
        HookSetModel {
            started: preferred(over.started, self.started),
            running: preferred(over.running, self.running),
            unhealthy: preferred(over.unhealthy, self.unhealthy),
            stopped: preferred(over.stopped, self.stopped),
            failed: preferred(over.failed, self.failed),
        }
    }

    pub open spec fn with(self, event: HookEvent, def: HookModel) -> HookSetModel {
        match event {
            HookEvent::Started => HookSetModel { started: Some(def), ..self },
            HookEvent::Running => HookSetModel { running: Some(def), ..self },
            HookEvent::Unhealthy => HookSetModel { unhealthy: Some(def), ..self },
            HookEvent::Stopped => HookSetModel { stopped: Some(def), ..self },
            HookEvent::Failed => HookSetModel { failed: Some(def), ..self },
        }
    }
}

impl HookSet {
    pub fn get(&self, event: HookEvent) -> (r: Option<&HookDef>)
        ensures
            match r {
                Some(def) => self@.at(event) == Some(def@),
                None => self@.at(event) is None,
            },
    {
        match event {
            HookEvent::Started => self.started.as_ref(),
            HookEvent::Running => self.running.as_ref(),
            HookEvent::Unhealthy => self.unhealthy.as_ref(),
            HookEvent::Stopped => self.stopped.as_ref(),
            HookEvent::Failed => self.failed.as_ref(),
        }
    }

    fn set(&mut self, event: HookEvent, def: HookDef)
        ensures
            final(self)@ == old(self)@.with(event, def@),
    {
        match event {
            HookEvent::Started => {
                self.started = Some(def);
            },
            HookEvent::Running => {
                self.running = Some(def);
            },
            HookEvent::Unhealthy => {
                self.unhealthy = Some(def);
            },
            HookEvent::Stopped => {
                self.stopped = Some(def);
            },
            HookEvent::Failed => {
                self.failed = Some(def);
            },
        }
    }

    fn prefer(over: Option<HookDef>, base: Option<HookDef>) -> (r: Option<HookDef>)
        ensures
            r == (if over is Some {
                over
            } else {
                base
            }),
    {
        match over {
            Some(def) => Some(def),
            None => base,
        }
    }

    /// The hooks of `over`, and those of `self` for the events that it lacks.
    pub fn overlay(self, over: HookSet) -> (r: HookSet)
        ensures
            r@ == self@.overlaid(over@),
    {
        HookSet {
            started: HookSet::prefer(over.started, self.started),
            running: HookSet::prefer(over.running, self.running),
            unhealthy: HookSet::prefer(over.unhealthy, self.unhealthy),
            stopped: HookSet::prefer(over.stopped, self.stopped),
            failed: HookSet::prefer(over.failed, self.failed),
        }
    }

    pub fn is_empty(&self) -> (r: bool)
        ensures
            r == (self@ == HookSetModel::none()),
            r == (forall|event: HookEvent| #[trigger] self@.at(event) is None),
    {
        let r = self.started.is_none() && self.running.is_none() && self.unhealthy.is_none()
            && self.stopped.is_none() && self.failed.is_none();
        proof {
            if forall|event: HookEvent| #[trigger] self@.at(event) is None {
                assert(self@.at(HookEvent::Started) is None);
                assert(self@.at(HookEvent::Running) is None);
                assert(self@.at(HookEvent::Unhealthy) is None);
                assert(self@.at(HookEvent::Stopped) is None);
                assert(self@.at(HookEvent::Failed) is None);
            }
        }
        r
    }
}

/// The hook that the value of an event stands for: a name refers to the
/// registry, a mapping is a hook of its own.
pub open spec fn event_hook(v: CfgNode, registry: Map<Seq<char>, HookModel>) -> Result<
    HookModel,
    Fault,
> {
    match v.value {
        CfgValue::Text(_) => if registry.dom().contains(v.text()) {
            Ok(registry[v.text()])
        } else {
            Err(Fault { mark: v.mark, problem: Problem::UnknownHook(v.text()) })
        },
        CfgValue::Object(_) => hook(v),
        _ => Err(Fault { mark: v.mark, problem: Problem::BadHook }),
    }
}

pub open spec fn hooks_upto(
    fields: Seq<(String, CfgNode)>,
    registry: Map<Seq<char>, HookModel>,
    n: nat,
) -> Result<HookSetModel, Fault>
    decreases n,
{
    if n == 0 {
        Ok(HookSetModel::none())
    } else {
        let key = fields[n - 1].0@;
        let v = fields[n - 1].1;
        match hooks_upto(fields, registry, (n - 1) as nat) {
            Err(f) => Err(f),
            Ok(before) => match HookEvent::named(key) {
                None => Err(Fault { mark: v.mark, problem: Problem::UnknownHookEvent(key) }),
                Some(event) => match event_hook(v, registry) {
                    Err(f) => Err(f),
                    Ok(def) => Ok(before.with(event, def)),
                },
            },
        }
    }
}

pub open spec fn proc_hooks(node: CfgNode, registry: Map<Seq<char>, HookModel>) -> Result<
    HookSetModel,
    Fault,
> {
    if node.value is Object {
        hooks_upto(node.fields(), registry, node.fields().len())
    } else {
        Err(mismatch_fault(node.mismatch(Shape::Mapping)))
    }
}

proof fn lemma_hooks_upto_error(
    fields: Seq<(String, CfgNode)>,
    registry: Map<Seq<char>, HookModel>,
    i: nat,
    n: nat,
)
    requires
        i <= n,
        hooks_upto(fields, registry, i) is Err,
    ensures
        hooks_upto(fields, registry, n) == hooks_upto(fields, registry, i),
    decreases n,
{
    if i < n {
        lemma_hooks_upto_error(fields, registry, i, (n - 1) as nat);
    }
}

fn resolve_hook(v: &CfgNode, registry: &HookRegistry) -> (r: Result<HookDef, ConfigError>)
    requires
        registry.wf(),
    ensures
        match r {
            Ok(def) => event_hook(*v, hook_models(registry@)) == Ok::<HookModel, Fault>(def@),
            Err(e) => event_hook(*v, hook_models(registry@)) == Err::<HookModel, Fault>(e@),
        },
{
    if v.is_string() {
        match v.as_str() {
            Ok(name) => match registry.get(name) {
                Some(def) => {
                    proof {
                        assert(hook_models(registry@)[name@] == def@);
                    }
                    Ok(def.clone())
                },
                None => Err(ConfigError::at(v.mark, ErrorKind::UnknownHook(name.to_owned()))),
            },
            Err(e) => Err(ConfigError::expected(e)),
        }
    } else if v.is_mapping() {
        HookDef::from_node(v)
    } else {
        Err(ConfigError::at(v.mark, ErrorKind::BadHook))
    }
}

/// Reads the hooks of a process.
pub fn parse_hooks(node: &CfgNode, registry: &HookRegistry) -> (r: Result<HookSet, ConfigError>)
    requires
        registry.wf(),
    ensures
        match r {
            Ok(set) => proc_hooks(*node, hook_models(registry@)) == Ok::<HookSetModel, Fault>(set@),
            Err(e) => proc_hooks(*node, hook_models(registry@)) == Err::<HookSetModel, Fault>(e@),
        },
{
    let fields = match node.as_obj() {
        Ok(fields) => fields,
        Err(e) => {
            return Err(ConfigError::expected(e));
        },
    };
    let ghost reg = hook_models(registry@);
    let mut out = HookSet::default();
    let mut i: usize = 0;
    while i < fields.len()
        invariant
            i <= fields@.len(),
            registry.wf(),
            reg == hook_models(registry@),
            node.value is Object,
            fields@ == node.fields(),
            hooks_upto(fields@, reg, i as nat) == Ok::<HookSetModel, Fault>(out@),
        decreases fields@.len() - i,
    {
        let v = &fields[i].1;
        match HookEvent::parse(fields[i].0.as_str()) {
            None => {
                proof {
                    lemma_hooks_upto_error(fields@, reg, (i + 1) as nat, fields@.len());
                }
                return Err(
                    ConfigError::at(v.mark, ErrorKind::UnknownHookEvent(fields[i].0.clone())),
                );
            },
            Some(event) => match resolve_hook(v, registry) {
                Ok(def) => {
                    out.set(event, def);
                },
                Err(e) => {
                    proof {
                        lemma_hooks_upto_error(fields@, reg, (i + 1) as nat, fields@.len());
                    }
                    return Err(e);
                },
            },
        }
        i += 1;
    }
    Ok(out)
}

} // verus!
