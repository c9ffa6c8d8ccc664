//! The live settings of one scene instance.
//!
//! Constructed from the descriptor's schema defaults, optionally overlaid
//! with values persisted from an earlier run, mutated in place from the
//! settings panel, and handed back for persisting on an explicit save.

use crate::descriptor::Descriptor;
use crate::setting::{Setting, SettingParseError, SettingValue};
use crate::util::{seq_get, DeserializableMap};
use vstd::prelude::*;

verus! {

/// Whether two setting values carry the same variant.
pub open spec fn same_variant(a: SettingValue, b: SettingValue) -> bool {
    (a is Float && b is Float) || (a is Colour3 && b is Colour3)
}

/// The default values of a settings schema, in schema order; the first
/// schema whose default cannot be derived decides the error.
pub open spec fn spec_defaults(s: Seq<(String, Setting)>) -> Result<
    Seq<(String, SettingValue)>,
    SettingParseError,
>
    decreases s.len(),
{
    if s.len() == 0 {
        Ok(Seq::<(String, SettingValue)>::empty())
    } else {
        match spec_defaults(s.drop_last()) {
            Ok(rest) => match crate::setting::spec_setting_default(s.last().1) {
                Ok(v) => Ok(rest.push((s.last().0, v))),
                Err(e) => Err(e),
            },
            Err(e) => Err(e),
        }
    }
}

/// The value a persisted file contributes for one schema key: the persisted
/// value when present with the schema's variant, the schema default
/// otherwise.
pub open spec fn spec_load_value(
    file: Seq<(String, SettingValue)>,
    key: Seq<char>,
    def: SettingValue,
) -> SettingValue {
    match seq_get(file, key) {
        Some(v) => if same_variant(v, def) {
            v
        } else {
            def
        },
        None => def,
    }
}

/// The settings read back from a persisted file under a schema: schema keys
/// in schema order, each with the persisted value where its variant matches,
/// the default otherwise.
pub open spec fn spec_loaded(
    file: Seq<(String, SettingValue)>,
    s: Seq<(String, Setting)>,
) -> Result<Seq<(String, SettingValue)>, SettingParseError>
    decreases s.len(),
{
    if s.len() == 0 {
        Ok(Seq::<(String, SettingValue)>::empty())
    } else {
        match spec_loaded(file, s.drop_last()) {
            Ok(rest) => match crate::setting::spec_setting_default(s.last().1) {
                Ok(v) => Ok(rest.push((s.last().0, spec_load_value(file, s.last().0@, v)))),
                Err(e) => Err(e),
            },
            Err(e) => Err(e),
        }
    }
}

/// A typed, named mapping of the user-tunable values of one scene.
#[derive(Debug)]
pub struct Settings {
    data: DeserializableMap<SettingValue>,
}

/// Finds the first value stored under `key` in a list of persisted pairs.
fn lookup_pair(file: &Vec<(String, SettingValue)>, key: &String) -> (r: Option<SettingValue>)
    ensures
        r == seq_get(file@, key@),
{
    let n = file.len();
    let mut i: usize = 0;
    proof {
        assert(file@.skip(0) =~= file@);
    }
    while i < n
        invariant
            n == file@.len(),
            i <= n,
            seq_get(file@, key@) == seq_get(file@.skip(i as int), key@),
        decreases n - i,
    {
        proof {
            assert(file@.skip(i as int)[0] == file@[i as int]);
        }
        if file[i].0.eq(key) {
            proof {
                reveal_with_fuel(seq_get, 2);
            }
            return Some(file[i].1);
        }
        proof {
            assert(file@.skip(i as int).drop_first() =~= file@.skip(i + 1));
            reveal_with_fuel(seq_get, 2);
        }
        i = i + 1;
    }
    proof {
        assert(file@.skip(n as int) =~= Seq::<(String, SettingValue)>::empty());
    }
    None
}

/// When the defaults of a prefix succeed but schema `i` fails, the defaults
/// of the whole schema fail with that error.
proof fn lemma_defaults_err(s: Seq<(String, Setting)>, i: int)
    requires
        0 <= i < s.len(),
        spec_defaults(s.take(i)) is Ok,
        crate::setting::spec_setting_default(s[i].1) is Err,
    ensures
        spec_defaults(s) == Err::<Seq<(String, SettingValue)>, SettingParseError>(
            crate::setting::spec_setting_default(s[i].1)->Err_0,
        ),
    decreases s.len(),
{
    if i == s.len() - 1 {
        assert(s.drop_last() =~= s.take(i));
    } else {
        assert(s.drop_last().take(i) =~= s.take(i));
        assert(s.drop_last()[i] == s[i]);
        lemma_defaults_err(s.drop_last(), i);
    }
}

/// The same, for loading against a persisted file.
proof fn lemma_loaded_err(file: Seq<(String, SettingValue)>, s: Seq<(String, Setting)>, i: int)
    requires
        0 <= i < s.len(),
        spec_loaded(file, s.take(i)) is Ok,
        crate::setting::spec_setting_default(s[i].1) is Err,
    ensures
        spec_loaded(file, s) == Err::<Seq<(String, SettingValue)>, SettingParseError>(
            crate::setting::spec_setting_default(s[i].1)->Err_0,
        ),
    decreases s.len(),
{
    if i == s.len() - 1 {
        assert(s.drop_last() =~= s.take(i));
    } else {
        assert(s.drop_last().take(i) =~= s.take(i));
        assert(s.drop_last()[i] == s[i]);
        lemma_loaded_err(file, s.drop_last(), i);
    }
}

/// A `Settings`' map view coincides with its backing map's view.
proof fn lemma_view_eq(s: Settings)
    ensures
        s@ == s.data@,
{
    assert(s@ =~= s.data@);
}

impl Settings {
    /// The stored pairs, in schema order.
    pub closed spec fn pairs(&self) -> Seq<(String, SettingValue)> {
        self.data.pairs()
    }

    /// The settings as a map from key to value.
    pub open spec fn view(&self) -> Map<Seq<char>, SettingValue> {
        Map::new(
            |k: Seq<char>| seq_get(self.pairs(), k) is Some,
            |k: Seq<char>| seq_get(self.pairs(), k)->Some_0,
        )
    }

    pub open spec fn wf(&self) -> bool {
        crate::util::keys_unique(self.pairs())
    }

    /// Fills every schema key with its parsed default, in schema order;
    /// fails with the first schema whose default cannot be derived.
    pub fn new(descriptor: &Descriptor) -> (r: Result<Settings, SettingParseError>)
        requires
            descriptor.wf(),
        ensures
            r is Ok <==> spec_defaults(descriptor.settings.pairs()) is Ok,
            r is Ok ==> r->Ok_0.pairs() == spec_defaults(descriptor.settings.pairs())->Ok_0
                && r->Ok_0.wf(),
            r is Err ==> r->Err_0 == spec_defaults(descriptor.settings.pairs())->Err_0,
    {
        let ghost schema = descriptor.settings.pairs();
        let mut data = DeserializableMap::<SettingValue>::empty();
        let entries = descriptor.settings.iter();
        let n = entries.len();
        let mut i: usize = 0;
        proof {
            assert(schema.take(0) =~= Seq::<(String, Setting)>::empty());
        }
        while i < n
            invariant
                descriptor.wf(),
                schema == descriptor.settings.pairs(),
                entries@ == schema,
                n == schema.len(),
                i <= n,
                data.wf(),
                data.pairs().len() == i,
                spec_defaults(schema.take(i as int)) == Ok::<_, SettingParseError>(data.pairs()),
                forall|j: int|
                    0 <= j < data.pairs().len() ==> (#[trigger] data.pairs()[j]).0 == schema[j].0,
            decreases n - i,
        {
            let key = &entries[i].0;
            let schema_entry = &entries[i].1;
            match SettingValue::from_descriptor(schema_entry) {
                Ok(v) => {
                    proof {
                        assert(!data@.contains_key(key@)) by {
                            if data@.contains_key(key@) {
                                crate::util::lemma_get_found_index(data.pairs(), key@);
                                let j = choose|j: int|
                                    0 <= j < data.pairs().len() && (#[trigger] data.pairs()[j]).0@
                                        == key@;
                                assert(data.pairs()[j].0 == schema[j].0);
                                assert(schema[j].0@ == schema[i as int].0@);
                                assert(false);
                            }
                        }
                    }
                    data.insert(key.clone(), v);
                    proof {
                        assert(schema.take(i + 1).drop_last() =~= schema.take(i as int));
                        assert(schema.take(i + 1).last() == schema[i as int]);
                        assert(data.pairs()[i as int].0 == schema[i as int].0);
                    }
                },
                Err(e) => {
                    proof {
                        lemma_defaults_err(schema, i as int);
                    }
                    return Err(e);
                },
            }
            i = i + 1;
        }
        proof {
            assert(schema.take(n as int) =~= schema);
        }
        Ok(Settings { data })
    }

    /// Overlays a persisted flat map on the schema: every schema key is
    /// present in the result, holding the persisted value where its variant
    /// matches the schema's, and the schema default otherwise — drift in a
    /// saved file is repaired by substitution, never fatal. Only a schema
    /// whose own default cannot be derived fails.
    pub fn load(file: &Vec<(String, SettingValue)>, descriptor: &Descriptor) -> (r: Option<
        Settings,
    >)
        requires
            descriptor.wf(),
        ensures
            r is Some <==> spec_loaded(file@, descriptor.settings.pairs()) is Ok,
            r is Some ==> r->0.pairs() == spec_loaded(file@, descriptor.settings.pairs())->Ok_0
                && r->0.wf(),
    {
        let ghost schema = descriptor.settings.pairs();
        let mut data = DeserializableMap::<SettingValue>::empty();
        let entries = descriptor.settings.iter();
        let n = entries.len();
        let mut i: usize = 0;
        proof {
            assert(schema.take(0) =~= Seq::<(String, Setting)>::empty());
        }
        while i < n
            invariant
                descriptor.wf(),
                schema == descriptor.settings.pairs(),
                entries@ == schema,
                n == schema.len(),
                i <= n,
                data.wf(),
                data.pairs().len() == i,
                spec_loaded(file@, schema.take(i as int)) == Ok::<_, SettingParseError>(
                    data.pairs(),
                ),
                forall|j: int|
                    0 <= j < data.pairs().len() ==> (#[trigger] data.pairs()[j]).0 == schema[j].0,
            decreases n - i,
        {
            let key = &entries[i].0;
            let schema_entry = &entries[i].1;
            match SettingValue::from_descriptor(schema_entry) {
                Ok(def) => {
                    let value = match lookup_pair(file, key) {
                        Some(v) => if v.variant_matches(&def) {
                            v
                        } else {
                            def
                        },
                        None => def,
                    };
                    proof {
                        assert(!data@.contains_key(key@)) by {
                            if data@.contains_key(key@) {
                                crate::util::lemma_get_found_index(data.pairs(), key@);
                                let j = choose|j: int|
                                    0 <= j < data.pairs().len() && (#[trigger] data.pairs()[j]).0@
                                        == key@;
                                assert(data.pairs()[j].0 == schema[j].0);
                                assert(schema[j].0@ == schema[i as int].0@);
                                assert(false);
                            }
                        }
                    }
                    data.insert(key.clone(), value);
                    proof {
                        assert(schema.take(i + 1).drop_last() =~= schema.take(i as int));
                        assert(schema.take(i + 1).last() == schema[i as int]);
                        assert(data.pairs()[i as int].0 == schema[i as int].0);
                    }
                },
                Err(_) => {
                    proof {
                        lemma_loaded_err(file@, schema, i as int);
                    }
                    return None;
                },
            }
            i = i + 1;
        }
        proof {
            assert(schema.take(n as int) =~= schema);
        }
        Some(Settings { data })
    }

    /// The flat pairs to persist, in schema order — exactly the live values.
    pub fn save(&self) -> (r: Vec<(String, SettingValue)>)
        ensures
            r@ == self.pairs(),
    {
        let entries = self.data.iter();
        let n = entries.len();
        let mut r: Vec<(String, SettingValue)> = Vec::new();
        let mut i: usize = 0;
        while i < n
            invariant
                n == self.pairs().len(),
                i <= n,
                entries@ == self.pairs(),
                r@ =~= self.pairs().take(i as int),
            decreases n - i,
        {
            r.push((entries[i].0.clone(), entries[i].1));
            i = i + 1;
        }
        proof {
            assert(self.pairs().take(n as int) =~= self.pairs());
        }
        r
    }

    pub fn get(&self, key: &String) -> (r: Option<&SettingValue>)
        ensures
            match r {
                Some(v) => self@.contains_key(key@) && *v == self@[key@],
                None => !self@.contains_key(key@),
            },
    {
        proof {
            lemma_view_eq(*self);
        }
        self.data.get(key)
    }

    /// Replaces the value under `key` unconditionally; the caller is trusted
    /// to have matched the schema's variant.
    pub fn update(&mut self, key: &String, value: SettingValue)
        requires
            old(self).wf(),
            old(self)@.contains_key(key@),
        ensures
            final(self).wf(),
            final(self)@ == old(self)@.insert(key@, value),
            final(self).pairs().len() == old(self).pairs().len(),
            forall|j: int|
                0 <= j < old(self).pairs().len() ==> (#[trigger] final(self).pairs()[j]).0
                    == old(self).pairs()[j].0,
            forall|j: int|
                0 <= j < old(self).pairs().len() && old(self).pairs()[j].0@ != key@
                    ==> (#[trigger] final(self).pairs()[j]).1 == old(self).pairs()[j].1,
            forall|j: int|
                0 <= j < old(self).pairs().len() && old(self).pairs()[j].0@ == key@
                    ==> (#[trigger] final(self).pairs()[j]).1 == value,
    {
        proof {
            lemma_view_eq(*self);
        }
        self.data.update_value(key, value);
        proof {
            lemma_view_eq(*self);
        }
    }

    /// The pairs themselves, for iteration in schema order.
    pub fn iter(&self) -> (r: &Vec<(String, SettingValue)>)
        ensures
            r@ == self.pairs(),
    {
        self.data.iter()
    }

    /// An independent copy with the same keys and values.
    pub fn clone(&self) -> (r: Settings)
        requires
            self.wf(),
        ensures
            r.wf(),
            r.pairs() == self.pairs(),
            r@ == self@,
    {
        let entries = self.data.iter();
        let n = entries.len();
        let mut data = DeserializableMap::<SettingValue>::empty();
        let mut i: usize = 0;
        while i < n
            invariant
                self.wf(),
                n == self.pairs().len(),
                i <= n,
                entries@ == self.pairs(),
                data.wf(),
                data.pairs() =~= self.pairs().take(i as int),
            decreases n - i,
        {
            proof {
                assert(!data@.contains_key(entries@[i as int].0@)) by {
                    if data@.contains_key(entries@[i as int].0@) {
                        crate::util::lemma_get_found_index(data.pairs(), entries@[i as int].0@);
                    }
                }
            }
            data.insert(entries[i].0.clone(), entries[i].1);
            i = i + 1;
        }
        proof {
            assert(data.pairs() =~= self.pairs());
        }
        Settings { data }
    }

    /// Reloads every schema key to its default; keys outside the schema are
    /// untouched. When some schema default cannot be derived, fails with the
    /// first such error and changes nothing.
    pub fn reset(&mut self, descriptor: &Descriptor) -> (r: Result<(), SettingParseError>)
        requires
            old(self).wf(),
            descriptor.wf(),
            forall|j: int|
                0 <= j < descriptor.settings.pairs().len() ==> old(self)@.contains_key(
                    (#[trigger] descriptor.settings.pairs()[j]).0@,
                ),
        ensures
            final(self).wf(),
            r is Ok <==> spec_defaults(descriptor.settings.pairs()) is Ok,
            r is Err ==> *final(self) == *old(self) && r->Err_0 == spec_defaults(
                descriptor.settings.pairs(),
            )->Err_0,
            r is Ok ==> {
                let defs = spec_defaults(descriptor.settings.pairs())->Ok_0;
                &&& final(self).pairs().len() == old(self).pairs().len()
                &&& forall|j: int|
                    0 <= j < old(self).pairs().len() ==> (#[trigger] final(self).pairs()[j]).0
                        == old(self).pairs()[j].0
                &&& forall|k: Seq<char>|
                    final(self)@.contains_key(k) <==> old(self)@.contains_key(k)
                &&& forall|i: int|
                    0 <= i < defs.len() ==> final(self)@[(#[trigger] defs[i]).0@] == defs[i].1
                &&& forall|k: Seq<char>|
                    old(self)@.contains_key(k) && (forall|i: int|
                        0 <= i < defs.len() ==> (#[trigger] defs[i]).0@ != k) ==> final(self)@[k]
                        == old(self)@[k]
            },
    {
        let ghost schema = descriptor.settings.pairs();
        let entries = descriptor.settings.iter();
        let n = entries.len();

        // Derive every default first, so that a failure leaves the
        // settings untouched.
        let mut defaults: Vec<SettingValue> = Vec::new();
        let mut i: usize = 0;
        proof {
            assert(schema.take(0) =~= Seq::<(String, Setting)>::empty());
        }
        while i < n
            invariant
                *self == *old(self),
                old(self).wf(),
                schema == descriptor.settings.pairs(),
                entries@ == schema,
                n == schema.len(),
                i <= n,
                spec_defaults(schema.take(i as int)) is Ok,
                spec_defaults(schema.take(i as int))->Ok_0.len() == i,
                defaults@.len() == i,
                forall|j: int|
                    0 <= j < i ==> spec_defaults(schema.take(i as int))->Ok_0[j] == (
                    schema[j].0,
                    #[trigger] defaults@[j],
                ),
            decreases n - i,
        {
            match SettingValue::from_descriptor(&entries[i].1) {
                Ok(v) => {
                    defaults.push(v);
                    proof {
                        assert(schema.take(i + 1).drop_last() =~= schema.take(i as int));
                        assert(schema.take(i + 1).last() == schema[i as int]);
                    }
                },
                Err(e) => {
                    proof {
                        lemma_defaults_err(schema, i as int);
                    }
                    return Err(e);
                },
            }
            i = i + 1;
        }
        proof {
            assert(schema.take(n as int) =~= schema);
        }
        let ghost defs = spec_defaults(schema)->Ok_0;

        let mut i: usize = 0;
        while i < n
            invariant
                descriptor.wf(),
                old(self).wf(),
                self.wf(),
                schema == descriptor.settings.pairs(),
                entries@ == schema,
                n == schema.len(),
                i <= n,
                defaults@.len() == n,
                defs.len() == n,
                forall|j: int| 0 <= j < n ==> (#[trigger] defs[j]) == (schema[j].0, defaults@[j]),
                forall|j: int|
                    0 <= j < n ==> old(self)@.contains_key((#[trigger] schema[j]).0@),
                self.pairs().len() == old(self).pairs().len(),
                forall|j: int|
                    0 <= j < old(self).pairs().len() ==> (#[trigger] self.pairs()[j]).0 == old(
                        self,
                    ).pairs()[j].0,
                forall|k: Seq<char>| self@.contains_key(k) <==> old(self)@.contains_key(k),
                forall|j: int| 0 <= j < i ==> self@[(#[trigger] schema[j]).0@] == defaults@[j],
                forall|k: Seq<char>|
                    old(self)@.contains_key(k) && (forall|j: int|
                        0 <= j < n ==> (#[trigger] schema[j]).0@ != k) ==> self@[k] == old(
                        self,
                    )@[k],
            decreases n - i,
        {
            let key = &entries[i].0;
            let ghost prev = *self;
            proof {
                lemma_view_eq(prev);
            }
            self.data.update_value(key, defaults[i]);
            proof {
                lemma_view_eq(*self);
                assert(self@ == prev@.insert(key@, defaults@[i as int]));
                assert forall|j: int| 0 <= j < i + 1 implies self@[
                    (#[trigger] schema[j]).0@
                ] == defaults@[j] by {
                    if j < i {
                        assert(schema[j].0@ != schema[i as int].0@);
                    }
                }
            }
            i = i + 1;
        }
        Ok(())
    }
}


/// What one reset does to the settings map: every schema key returns to its
/// default, every other key keeps its value, and no key appears or
/// disappears.
pub open spec fn reset_applied(
    old_m: Map<Seq<char>, SettingValue>,
    new_m: Map<Seq<char>, SettingValue>,
    defs: Seq<(String, SettingValue)>,
) -> bool {
    &&& forall|k: Seq<char>| #[trigger] new_m.contains_key(k) <==> old_m.contains_key(k)
    &&& forall|i: int| 0 <= i < defs.len() ==> new_m[(#[trigger] defs[i]).0@] == defs[i].1
    &&& forall|k: Seq<char>|
        old_m.contains_key(k) && (forall|i: int| 0 <= i < defs.len() ==> (#[trigger] defs[i]).0@
            != k) ==> #[trigger] new_m[k] == old_m[k]
}

/// Law: resetting to the schema defaults is idempotent — a second reset
/// changes nothing, since schema keys already hold their defaults and the
/// other keys were never touched.
pub proof fn lemma_reset_idempotent(
    m0: Map<Seq<char>, SettingValue>,
    m1: Map<Seq<char>, SettingValue>,
    m2: Map<Seq<char>, SettingValue>,
    defs: Seq<(String, SettingValue)>,
)
    requires
        reset_applied(m0, m1, defs),
        reset_applied(m1, m2, defs),
        forall|i: int| 0 <= i < defs.len() ==> m0.contains_key((#[trigger] defs[i]).0@),
    ensures
        m1 == m2,
{
    assert forall|k: Seq<char>| #[trigger] m1.contains_key(k) implies m2.contains_key(k)
        && m1[k] == m2[k] by {
        if exists|i: int| 0 <= i < defs.len() && (#[trigger] defs[i]).0@ == k {
            let i = choose|i: int| 0 <= i < defs.len() && (#[trigger] defs[i]).0@ == k;
            assert(m1[defs[i].0@] == defs[i].1);
            assert(m2[defs[i].0@] == defs[i].1);
        } else {
            assert(m2[k] == m1[k]);
        }
    }
    assert(m1 =~= m2);
}

/// Law: a settings file saved and reloaded under the same schema restores
/// every key's exact value, provided each saved value carries its schema's
/// variant — substitution happens only on a variant mismatch or a missing
/// key.
pub proof fn lemma_round_trip(file: Seq<(String, SettingValue)>, schema: Seq<(String, Setting)>)
    requires
        spec_defaults(schema) is Ok,
        schema.len() <= file.len(),
        crate::util::keys_unique(file),
        forall|j: int| 0 <= j < schema.len() ==> (#[trigger] file[j]).0@ == schema[j].0@,
        forall|j: int|
            0 <= j < schema.len() ==> same_variant(
                (#[trigger] file[j]).1,
                spec_defaults(schema)->Ok_0[j].1,
            ),
    ensures
        spec_loaded(file, schema) is Ok,
        spec_loaded(file, schema)->Ok_0.len() == schema.len(),
        forall|j: int|
            0 <= j < schema.len() ==> (#[trigger] spec_loaded(file, schema)->Ok_0[j]) == (
            schema[j].0,
            file[j].1,
        ),
    decreases schema.len(),
{
    if schema.len() > 0 {
        let sd = schema.drop_last();
        assert(forall|j: int| 0 <= j < sd.len() ==> sd[j] == schema[j]);
        assert(spec_defaults(sd) is Ok);
        assert(crate::setting::spec_setting_default(schema.last().1) is Ok);
        assert(spec_defaults(schema)->Ok_0 == spec_defaults(sd)->Ok_0.push(
            (schema.last().0, crate::setting::spec_setting_default(schema.last().1)->Ok_0),
        ));
        assert(spec_defaults(sd)->Ok_0.len() == sd.len()) by {
            lemma_defaults_len(sd);
        }
        assert forall|j: int|
            0 <= j < sd.len() implies same_variant(
            (#[trigger] file[j]).1,
            spec_defaults(sd)->Ok_0[j].1,
        ) by {
            assert(spec_defaults(sd)->Ok_0[j] == spec_defaults(schema)->Ok_0[j]);
        }
        lemma_round_trip(file, sd);
        let jl = schema.len() - 1;
        let key = schema[jl].0;
        crate::util::lemma_get_present(file, jl);
        assert(seq_get(file, key@) == Some(file[jl].1));
        assert(spec_defaults(schema)->Ok_0[jl].1 == crate::setting::spec_setting_default(
            schema[jl].1,
        )->Ok_0);
        assert(spec_loaded(file, schema)->Ok_0 == spec_loaded(file, sd)->Ok_0.push(
            (
                schema.last().0,
                spec_load_value(
                    file,
                    schema.last().0@,
                    crate::setting::spec_setting_default(schema.last().1)->Ok_0,
                ),
            ),
        ));
    }
}

/// Derived defaults pair one value with each schema entry.
pub proof fn lemma_defaults_len(schema: Seq<(String, Setting)>)
    requires
        spec_defaults(schema) is Ok,
    ensures
        spec_defaults(schema)->Ok_0.len() == schema.len(),
    decreases schema.len(),
{
    if schema.len() > 0 {
        lemma_defaults_len(schema.drop_last());
    }
}

} // verus!
