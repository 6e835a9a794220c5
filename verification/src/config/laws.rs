//! What a configuration means: every setting that is written down is the one
//! that is read, and one that is not written down has its default.

use crate::config::duration::{parsed_duration, DurationProblem};
use crate::config::error::Fault;
use crate::config::health::{
    check_registry, health_check, hook, hook_registry, hooks_upto, listed_checks, named_checks,
    named_hooks, proc_checks, proc_hooks, HealthCheckModel, HookEvent, HookModel, HookSetModel,
};
use crate::config::node::{entry, CfgNode, CfgValue};
use crate::text::decimal;
use vstd::prelude::*;

verus! {

/// `v` is the value of the first field with this key.
pub open spec fn first_at<V>(fields: Seq<(String, V)>, key: Seq<char>, v: V) -> bool {
    exists|i: int|
        0 <= i < fields.len() && (#[trigger] fields[i]).0@ == key && fields[i].1 == v && forall|
            j: int,
        |
            0 <= j < i ==> (#[trigger] fields[j]).0@ != key
}

/// No field has this key.
pub open spec fn absent<V>(fields: Seq<(String, V)>, key: Seq<char>) -> bool {
    forall|i: int| 0 <= i < fields.len() ==> (#[trigger] fields[i]).0@ != key
}

/// The value of a key is that of the first field that has it.
pub proof fn first_field_counts<V>(fields: Seq<(String, V)>, key: Seq<char>)
    ensures
        entry(fields, key) is None <==> absent(fields, key),
        entry(fields, key) matches Some(v) ==> first_at(fields, key, v),
    decreases fields.len(),
{
    if fields.len() > 0 {
        let t = fields.skip(1);
        if fields[0].0@ != key {
            first_field_counts(t, key);
            assert forall|i: int| 0 <= i < t.len() implies #[trigger] t[i] == fields[i + 1] by {}
            if entry(fields, key) is Some {
                let v = entry(fields, key)->0;
                let i = choose|i: int|
                    0 <= i < t.len() && (#[trigger] t[i]).0@ == key && t[i].1 == v && forall|j: int|
                        0 <= j < i ==> (#[trigger] t[j]).0@ != key;
                assert(fields[i + 1].0@ == key && fields[i + 1].1 == v);
                assert forall|j: int| 0 <= j < i + 1 implies (#[trigger] fields[j]).0@ != key by {
                    if j > 0 {
                        assert(t[j - 1].0@ != key);
                    }
                }
            } else {
                assert forall|i: int| 0 <= i < fields.len() implies (#[trigger] fields[i]).0@
                    != key by {
                    if i > 0 {
                        assert(t[i - 1].0@ != key);
                    }
                }
            }
        } else {
            assert(first_at(fields, key, fields[0].1));
        }
    }
}

/// A duration is read from a text, or has its default.
pub open spec fn duration_is(said: Option<CfgNode>, default: u64, ms: u64) -> bool {
    match said {
        None => ms == default,
        Some(v) => v.value matches CfgValue::Text(s) && parsed_duration(s@) == Ok::<
            u64,
            DurationProblem,
        >(ms),
    }
}

/// A count is the number that is given, as far as one can count, or its
/// default.
pub open spec fn count_is(said: Option<CfgNode>, default: u32, least: u32, n: u32) -> bool {
    match said {
        None => n == default,
        Some(v) => v.value matches CfgValue::Int(k) && 0 <= k && (least <= k <= u32::MAX ==> n == k)
            && (k < least ==> n == least),
    }
}

pub open spec fn is_duration(said: Option<CfgNode>) -> bool {
    said matches Some(v) ==> (v.value matches CfgValue::Text(s) && parsed_duration(s@) is Ok)
}

pub open spec fn is_count(said: Option<CfgNode>) -> bool {
    said matches Some(v) ==> (v.value matches CfgValue::Int(n) && 0 <= n <= usize::MAX)
}

pub open spec fn is_text(said: Option<CfgNode>) -> bool {
    said matches Some(v) && v.value is Text
}

/// A health check has the command, the times and the counts that its mapping
/// gives: without them it runs every ten seconds for five seconds at most, may
/// fail twice in a row and has to pass once.
pub proof fn check_is_read_as_written(node: CfgNode)
    ensures
        health_check(node) is Ok <==> {
            &&& node.value is Object
            &&& is_text(entry(node.fields(), "cmd"@))
            &&& is_duration(entry(node.fields(), "interval"@))
            &&& is_duration(entry(node.fields(), "timeout"@))
            &&& is_duration(entry(node.fields(), "start_period"@))
            &&& is_count(entry(node.fields(), "retries"@))
            &&& is_count(entry(node.fields(), "min_passes"@))
        },
        health_check(node) matches Ok(def) ==> {
            let fields = node.fields();
            &&& entry(fields, "cmd"@)->0.value matches CfgValue::Text(cmd) && def.cmd == cmd@
            &&& duration_is(entry(fields, "interval"@), 10_000, def.interval)
            &&& duration_is(entry(fields, "timeout"@), 5_000, def.timeout)
            &&& duration_is(entry(fields, "start_period"@), 0, def.start_period)
            &&& count_is(entry(fields, "retries"@), 3, 0, def.retries)
            &&& count_is(entry(fields, "min_passes"@), 1, 1, def.min_passes)
        },
{
}

/// A hook has the command that its mapping gives, and is waited for unless it
/// says otherwise.
pub proof fn hook_is_read_as_written(node: CfgNode)
    ensures
        hook(node) is Ok <==> {
            &&& node.value is Object
            &&& is_text(entry(node.fields(), "cmd"@))
            &&& entry(node.fields(), "async"@) matches Some(v) ==> v.value is Bool
        },
        hook(node) matches Ok(def) ==> {
            &&& entry(node.fields(), "cmd"@)->0.value matches CfgValue::Text(cmd) && def.cmd == cmd@
            &&& def.async_ <==> (entry(node.fields(), "async"@) matches Some(v) && v.value
                == CfgValue::Bool(true))
        },
{
}

/// The last of the first `n` fields with this key is the one at `i`.
pub open spec fn last_before<V>(fields: Seq<(String, V)>, n: int, i: int) -> bool {
    &&& 0 <= i < n
    &&& forall|j: int| i < j < n ==> (#[trigger] fields[j]).0@ != fields[i].0@
}

/// `def` is the check that a field defines.
pub open spec fn defines(field: (String, CfgNode), def: HealthCheckModel) -> bool {
    &&& def.name == field.0@
    &&& health_check(field.1) == Ok::<HealthCheckModel, Fault>(
        (HealthCheckModel { name: Seq::empty(), ..def }),
    )
}

proof fn lemma_defines(field: (String, CfgNode))
    ensures
        health_check(field.1) matches Ok(def) ==> defines(
            field,
            (HealthCheckModel { name: field.0@, ..def }),
        ),
{
    if let Ok(def) = health_check(field.1) {
        assert(def.name =~= Seq::empty());
        let named = HealthCheckModel { name: field.0@, ..def };
        assert((HealthCheckModel { name: Seq::empty(), ..named }) =~= def);
    }
}

proof fn lemma_named_check(fields: Seq<(String, CfgNode)>, n: nat, i: int)
    requires
        n <= fields.len(),
        named_checks(fields, n) is Ok,
        last_before(fields, n as int, i),
    ensures
        named_checks(fields, n)->Ok_0.dom().contains(fields[i].0@),
        defines(fields[i], named_checks(fields, n)->Ok_0[fields[i].0@]),
    decreases n,
{
    let m = (n - 1) as nat;
    lemma_defines(fields[n - 1]);
    if i < m {
        assert(fields[n - 1].0@ != fields[i].0@);
        lemma_named_check(fields, m, i);
    }
}

proof fn lemma_no_other_check(fields: Seq<(String, CfgNode)>, n: nat, key: Seq<char>)
    requires
        n <= fields.len(),
        named_checks(fields, n) is Ok,
        named_checks(fields, n)->Ok_0.dom().contains(key),
    ensures
        exists|i: int| 0 <= i < n && (#[trigger] fields[i]).0@ == key,
    decreases n,
{
    if n > 0 {
        let m = (n - 1) as nat;
        if named_checks(fields, m)->Ok_0.dom().contains(key) {
            lemma_no_other_check(fields, m, key);
        } else {
            assert(fields[n - 1].0@ == key);
        }
    }
}

/// A named check is the one that its mapping defines, under its key, and there
/// are no others. Where a key comes again the last one counts.
pub proof fn named_checks_are_those_of_the_mapping(node: CfgNode, i: int, key: Seq<char>)
    requires
        check_registry(node) is Ok,
    ensures
        ({
            let fields = node.fields();
            let map = check_registry(node)->Ok_0;
            &&& last_before(fields, fields.len() as int, i) ==> map.dom().contains(fields[i].0@)
                && defines(fields[i], map[fields[i].0@])
            &&& map.dom().contains(key) ==> exists|k: int|
                0 <= k < fields.len() && (#[trigger] fields[k]).0@ == key
        }),
{
    let fields = node.fields();
    if last_before(fields, fields.len() as int, i) {
        lemma_named_check(fields, fields.len(), i);
    }
    if check_registry(node)->Ok_0.dom().contains(key) {
        lemma_no_other_check(fields, fields.len(), key);
    }
}

proof fn lemma_named_hooks(fields: Seq<(String, CfgNode)>, n: nat)
    requires
        n <= fields.len(),
        named_hooks(fields, n) is Ok,
    ensures
        ({
            let map = named_hooks(fields, n)->Ok_0;
            &&& forall|i: int|
                #![trigger fields[i]]
                0 <= i < n ==> map.dom().contains(fields[i].0@)
            &&& forall|i: int|
                #![trigger fields[i]]
                last_before(fields, n as int, i) ==> hook(fields[i].1) == Ok::<HookModel, Fault>(
                    map[fields[i].0@],
                )
        }),
    decreases n,
{
    if n > 0 {
        let m = (n - 1) as nat;
        lemma_named_hooks(fields, m);
        let map = named_hooks(fields, n)->Ok_0;
        assert forall|i: int|
            #![trigger fields[i]]
            last_before(fields, n as int, i) implies hook(fields[i].1) == Ok::<HookModel, Fault>(
            map[fields[i].0@],
        ) by {
            if i < m {
                assert(last_before(fields, m as int, i));
                assert(fields[n - 1].0@ != fields[i].0@);
            }
        }
    }
}

/// A named hook is the one that its mapping defines.
pub proof fn named_hooks_are_those_of_the_mapping(node: CfgNode, i: int)
    requires
        hook_registry(node) is Ok,
        last_before(node.fields(), node.fields().len() as int, i),
    ensures
        ({
            let field = node.fields()[i];
            let map = hook_registry(node)->Ok_0;
            map.dom().contains(field.0@) && hook(field.1) == Ok::<HookModel, Fault>(
                map[field.0@],
            )
        }),
{
    lemma_named_hooks(node.fields(), node.fields().len());
}

/// How many of the first `n` items are written out in place.
pub open spec fn written_out(items: Seq<CfgNode>, n: int) -> nat
    decreases n,
{
    if n <= 0 {
        0
    } else {
        written_out(items, n - 1) + if items[n - 1].value is Object {
            1nat
        } else {
            0
        }
    }
}

proof fn lemma_listed_checks(
    items: Seq<CfgNode>,
    registry: Map<Seq<char>, HealthCheckModel>,
    n: nat,
)
    requires
        n <= items.len(),
        listed_checks(items, registry, n) is Ok,
    ensures
        ({
            let list = listed_checks(items, registry, n)->Ok_0;
            &&& list.checks.len() == n
            &&& list.inline == written_out(items, n as int)
            &&& forall|i: int|
                #![trigger items[i]]
                0 <= i < n ==> listed_as(items, registry, i, list.checks[i])
        }),
    decreases n,
{
    if n > 0 {
        let m = (n - 1) as nat;
        lemma_listed_checks(items, registry, m);
        let before = listed_checks(items, registry, m)->Ok_0;
        let list = listed_checks(items, registry, n)->Ok_0;
        assert forall|i: int| #![trigger items[i]] 0 <= i < n implies listed_as(
            items,
            registry,
            i,
            list.checks[i],
        ) by {
            if i < m {
                assert(list.checks[i] == before.checks[i]);
            } else if items[i].value is Object {
                let def = health_check(items[i])->Ok_0;
                assert((HealthCheckModel { name: Seq::empty(), ..list.checks[i] }) == def);
            }
        }
    }
}

/// `check` is what the item at `i` stands for: the check of that name, or the
/// one that is written out there, which is named by its number.
pub open spec fn listed_as(
    items: Seq<CfgNode>,
    registry: Map<Seq<char>, HealthCheckModel>,
    i: int,
    check: HealthCheckModel,
) -> bool {
    match items[i].value {
        CfgValue::Text(name) => registry.dom().contains(name@) && check == registry[name@],
        CfgValue::Object(_) => {
            &&& health_check(items[i]) == Ok::<HealthCheckModel, Fault>(
                (HealthCheckModel { name: Seq::empty(), ..check }),
            )
            &&& check.name == "inline["@ + decimal(written_out(items, i)) + "]"@
        },
        _ => false,
    }
}

/// The checks of a process are those of its list, one for each item and in the
/// same order.
pub proof fn listed_checks_follow_the_list(
    node: CfgNode,
    registry: Map<Seq<char>, HealthCheckModel>,
    i: int,
)
    requires
        proc_checks(node, registry) is Ok,
    ensures
        node.value is List,
        proc_checks(node, registry)->Ok_0.len() == node.items().len(),
        0 <= i < node.items().len() ==> listed_as(
            node.items(),
            registry,
            i,
            proc_checks(node, registry)->Ok_0[i],
        ),
{
    lemma_listed_checks(node.items(), registry, node.items().len());
}

/// `def` is the hook that a value stands for.
pub open spec fn hook_meant(
    v: CfgNode,
    registry: Map<Seq<char>, HookModel>,
    def: HookModel,
) -> bool {
    match v.value {
        CfgValue::Text(name) => registry.dom().contains(name@) && def == registry[name@],
        CfgValue::Object(_) => hook(v) == Ok::<HookModel, Fault>(def),
        _ => false,
    }
}

/// What the first `n` fields say of the hook with this key.
pub open spec fn hook_said(
    fields: Seq<(String, CfgNode)>,
    registry: Map<Seq<char>, HookModel>,
    n: int,
    key: Seq<char>,
    def: Option<HookModel>,
) -> bool {
    &&& (forall|i: int| 0 <= i < n ==> (#[trigger] fields[i]).0@ != key) ==> def is None
    &&& forall|i: int|
        #![trigger fields[i]]
        last_before(fields, n, i) && fields[i].0@ == key ==> def is Some && hook_meant(
            fields[i].1,
            registry,
            def->0,
        )
}

proof fn lemma_hook_said(
    fields: Seq<(String, CfgNode)>,
    registry: Map<Seq<char>, HookModel>,
    n: int,
    key: Seq<char>,
    before: Option<HookModel>,
    def: Option<HookModel>,
)
    requires
        0 < n <= fields.len(),
        hook_said(fields, registry, n - 1, key, before),
        if fields[n - 1].0@ == key {
            def is Some && hook_meant(fields[n - 1].1, registry, def->0)
        } else {
            def == before
        },
    ensures
        hook_said(fields, registry, n, key, def),
{
    assert forall|i: int|
        #![trigger fields[i]]
        last_before(fields, n, i) && fields[i].0@ == key implies def is Some && hook_meant(
        fields[i].1,
        registry,
        def->0,
    ) by {
        if i < n - 1 {
            assert(fields[n - 1].0@ != key);
            assert(last_before(fields, n - 1, i));
        }
    }
}

proof fn lemma_hooks_said(
    fields: Seq<(String, CfgNode)>,
    registry: Map<Seq<char>, HookModel>,
    n: nat,
)
    requires
        n <= fields.len(),
        hooks_upto(fields, registry, n) is Ok,
    ensures
        ({
            let set = hooks_upto(fields, registry, n)->Ok_0;
            &&& hook_said(fields, registry, n as int, "started"@, set.started)
            &&& hook_said(fields, registry, n as int, "running"@, set.running)
            &&& hook_said(fields, registry, n as int, "unhealthy"@, set.unhealthy)
            &&& hook_said(fields, registry, n as int, "stopped"@, set.stopped)
            &&& hook_said(fields, registry, n as int, "failed"@, set.failed)
        }),
    decreases n,
{
    if n > 0 {
        let m = (n - 1) as nat;
        lemma_hooks_said(fields, registry, m);
        let before = hooks_upto(fields, registry, m)->Ok_0;
        let set = hooks_upto(fields, registry, n)->Ok_0;
        HookEvent::Started.label_names_the_event();
        HookEvent::Running.label_names_the_event();
        HookEvent::Unhealthy.label_names_the_event();
        HookEvent::Stopped.label_names_the_event();
        HookEvent::Failed.label_names_the_event();
        let k = n as int;
        lemma_hook_said(fields, registry, k, "started"@, before.started, set.started);
        lemma_hook_said(fields, registry, k, "running"@, before.running, set.running);
        lemma_hook_said(fields, registry, k, "unhealthy"@, before.unhealthy, set.unhealthy);
        lemma_hook_said(fields, registry, k, "stopped"@, before.stopped, set.stopped);
        lemma_hook_said(fields, registry, k, "failed"@, before.failed, set.failed);
    }
}

/// A process has the hooks that its mapping names or writes out, each for the
/// event that is its key, and no others.
pub proof fn hooks_are_those_of_the_mapping(node: CfgNode, registry: Map<Seq<char>, HookModel>)
    requires
        proc_hooks(node, registry) is Ok,
    ensures
        ({
            let fields = node.fields();
            let n = fields.len() as int;
            let set = proc_hooks(node, registry)->Ok_0;
            &&& hook_said(fields, registry, n, "started"@, set.started)
            &&& hook_said(fields, registry, n, "running"@, set.running)
            &&& hook_said(fields, registry, n, "unhealthy"@, set.unhealthy)
            &&& hook_said(fields, registry, n, "stopped"@, set.stopped)
            &&& hook_said(fields, registry, n, "failed"@, set.failed)
        }),
{
    lemma_hooks_said(node.fields(), registry, node.fields().len());
}

/// The hook of an event is found under that event, and is changed without the
/// others.
pub proof fn hooks_are_kept_by_event(set: HookSetModel, base: HookSetModel, def: HookModel)
    ensures
        set.at(HookEvent::Started) == set.started,
        set.at(HookEvent::Running) == set.running,
        set.at(HookEvent::Unhealthy) == set.unhealthy,
        set.at(HookEvent::Stopped) == set.stopped,
        set.at(HookEvent::Failed) == set.failed,
        forall|e: HookEvent| #[trigger] HookSetModel::none().at(e) is None,
        forall|e: HookEvent, f: HookEvent|
            (#[trigger] set.with(e, def).at(f)) == (if e == f {
                Some(def)
            } else {
                set.at(f)
            }),
        forall|e: HookEvent|
            (#[trigger] base.overlaid(set).at(e)) == (if set.at(e) is Some {
                set.at(e)
            } else {
                base.at(e)
            }),
{
}

} // verus!
