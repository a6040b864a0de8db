//! Schema versions of the persisted store and the plan that brings a store
//! of an older version to the current one.
use vstd::prelude::*;
use crate::store_model::{StoreError, SCHEMA_VERSION};
use crate::text::chars_of;

verus! {

/// One step that the persisting side performs when a store is opened.
#[derive(Debug, Clone, Copy, PartialEq, Eq, Structural)]
pub enum SchemaStep {
    /// Create every table and index of the current schema.
    CreateSchema,
    /// Add the usage counters and their indices to a store of version 1.
    MigrateV1ToV2,
    /// Record the given version as the store's schema version.
    RecordVersion(i32),
}

/// The migration that leads from `version` to the next version, where one
/// is known.
pub open spec fn migration_from(version: i32) -> Option<SchemaStep> {
    if version == 1 {
        Some(SchemaStep::MigrateV1ToV2)
    } else {
        None
    }
}

/// Every version from `from` up to, not including, `to` has a known
/// migration.
pub open spec fn migratable(from: i32, to: i32) -> bool {
    forall|v: i32| from <= v < to ==> (#[trigger] migration_from(v)) is Some
}

/// The migrations from `from` to `to`, one per version, in order.
pub open spec fn migrations(from: i32, to: i32) -> Seq<SchemaStep>
    decreases to - from,
{
    if from >= to {
        Seq::empty()
    } else {
        seq![migration_from(from)->0] + migrations((from + 1) as i32, to)
    }
}

/// What is to be done to a store of version `from` to bring it to `to`: its
/// migrations, then recording the new version. A version without a known
/// migration in between is a schema error.
pub open spec fn migration_plan(from: i32, to: i32) -> Result<Seq<SchemaStep>, StoreError> {
    if migratable(from, to) {
        Ok(migrations(from, to).push(SchemaStep::RecordVersion(to)))
    } else {
        Err(StoreError::SchemaError)
    }
}

/// What is to be done when a store of the persisted version `current` is
/// opened. Version 0 stands for storage that was never written: the schema
/// is created. An older version is migrated; the current version is left
/// as it is. A version above the current one is a schema error: migrations
/// lead forward only, so nothing leads from it to the current version.
pub open spec fn open_plan(current: i32) -> Result<Seq<SchemaStep>, StoreError> {
    if current == 0 {
        Ok(seq![SchemaStep::CreateSchema, SchemaStep::RecordVersion(SCHEMA_VERSION)])
    } else if current < SCHEMA_VERSION {
        migration_plan(current, SCHEMA_VERSION)
    } else if current == SCHEMA_VERSION {
        Ok(Seq::empty())
    } else {
        Err(StoreError::SchemaError)
    }
}

/// The steps that bring a store of version `from_version` to `to_version`.
pub fn migrate_schema(from_version: i32, to_version: i32) -> (r: Result<
    Vec<SchemaStep>,
    StoreError,
>)
    ensures
        match r {
            Ok(steps) => migration_plan(from_version, to_version) == Ok::<
                Seq<SchemaStep>,
                StoreError,
            >(steps@),
            Err(e) => migration_plan(from_version, to_version) == Err::<
                Seq<SchemaStep>,
                StoreError,
            >(e),
        },
{
    let mut steps: Vec<SchemaStep> = Vec::new();
    let mut version = from_version;
    while version < to_version
        invariant
            from_version <= version <= to_version || (from_version > to_version && version
                == from_version),
            forall|v: i32| from_version <= v < version ==> (#[trigger] migration_from(v)) is Some,
            migrations(from_version, to_version) == steps@ + migrations(version, to_version),
        decreases to_version - version,
    {
        if version == 1 {
            steps.push(SchemaStep::MigrateV1ToV2);
        } else {
            assert(migration_from(version) is None);
            return Err(StoreError::SchemaError);
        }
        proof {
            let rest = migrations(version, to_version);
            assert(rest == seq![SchemaStep::MigrateV1ToV2] + migrations(
                (version + 1) as i32,
                to_version,
            ));
            assert(steps@ + migrations((version + 1) as i32, to_version) =~= steps@.drop_last()
                + rest);
        }
        version += 1;
    }
    assert(migrations(version, to_version) =~= Seq::empty());
    assert(steps@ + Seq::<SchemaStep>::empty() =~= steps@);
    steps.push(SchemaStep::RecordVersion(to_version));
    Ok(steps)
}

/// The steps to perform when a store of the persisted version
/// `current_version` is opened.
pub fn initialize(current_version: i32) -> (r: Result<Vec<SchemaStep>, StoreError>)
    ensures
        match r {
            Ok(steps) => open_plan(current_version) == Ok::<Seq<SchemaStep>, StoreError>(steps@),
            Err(e) => open_plan(current_version) == Err::<Seq<SchemaStep>, StoreError>(e),
        },
{
    if current_version == 0 {
        let mut steps: Vec<SchemaStep> = Vec::new();
        steps.push(SchemaStep::CreateSchema);
        steps.push(SchemaStep::RecordVersion(SCHEMA_VERSION));
        assert(steps@ =~= seq![
            SchemaStep::CreateSchema,
            SchemaStep::RecordVersion(SCHEMA_VERSION),
        ]);
        Ok(steps)
    } else if current_version < SCHEMA_VERSION {
        migrate_schema(current_version, SCHEMA_VERSION)
    } else if current_version == SCHEMA_VERSION {
        Ok(Vec::new())
    } else {
        Err(StoreError::SchemaError)
    }
}

/// A store can be opened exactly where its persisted version is one from 0
/// to the current one: each of those has a plan, and no other has.
pub proof fn lemma_open_plan_exists(current: i32)
    ensures
        open_plan(current) is Ok <==> 0 <= current <= SCHEMA_VERSION,
        open_plan(current) is Err ==> open_plan(current) == Err::<Seq<SchemaStep>, StoreError>(
            StoreError::SchemaError,
        ),
{
    if current != 0 && current < SCHEMA_VERSION {
        if current == 1 {
            assert forall|v: i32| current <= v < SCHEMA_VERSION implies (#[trigger] migration_from(
                v,
            )) is Some by {}
        } else {
            assert(migration_from(current) is None);
        }
    }
}

/// The number that a run of decimal digits stands for; none for the empty
/// run and for a run that holds anything but digits.
pub open spec fn digits_value(s: Seq<char>) -> Option<int>
    decreases s.len(),
{
    if s.len() == 0 {
        None
    } else if !('0' <= s.last() && s.last() <= '9') {
        None
    } else if s.len() == 1 {
        Some(s.last() as u8 - 48)
    } else {
        match digits_value(s.drop_last()) {
            Some(v) => Some(v * 10 + (s.last() as u8 - 48)),
            None => None,
        }
    }
}

/// The number that a decimal numeral stands for: digits, with one `+` or
/// `-` in front at most.
pub open spec fn numeral_value(s: Seq<char>) -> Option<int> {
    if s.len() > 0 && s[0] == '-' {
        match digits_value(s.skip(1)) {
            Some(v) => Some(-v),
            None => None,
        }
    } else if s.len() > 0 && s[0] == '+' {
        digits_value(s.skip(1))
    } else {
        digits_value(s)
    }
}

/// The schema version that a persisted text stands for: the number it
/// spells where it is a decimal numeral within the range of versions, and
/// 0, the version of storage never written, for anything else.
pub open spec fn version_of(text: Seq<char>) -> i32 {
    match numeral_value(text) {
        Some(v) => if i32::MIN <= v <= i32::MAX {
            v as i32
        } else {
            0
        },
        None => 0,
    }
}

/// A run of digits stands for no less than any run it begins with, and for
/// nothing where a run it begins with holds something else than digits.
proof fn lemma_digits_prefix(s: Seq<char>, n: int)
    requires
        1 <= n <= s.len(),
    ensures
        digits_value(s.take(n)) is None ==> digits_value(s) is None,
        digits_value(s) matches Some(v) ==> digits_value(s.take(n)) matches Some(p) && 0 <= p <= v,
    decreases s.len() - n,
{
    if n == s.len() {
        assert(s.take(n) =~= s);
        lemma_digits_nonnegative(s);
    } else {
        lemma_digits_prefix(s, n + 1);
        assert(s.take(n + 1).drop_last() =~= s.take(n));
        lemma_digits_nonnegative(s.take(n));
    }
}

proof fn lemma_digits_nonnegative(s: Seq<char>)
    ensures
        digits_value(s) matches Some(v) ==> v >= 0,
    decreases s.len(),
{
    if s.len() > 1 {
        lemma_digits_nonnegative(s.drop_last());
    }
}

/// Reads the schema version out of the text that the store keeps it in.
pub fn parse_schema_version(text: &str) -> (version: i32)
    ensures
        version == version_of(text@),
{
    let chars = chars_of(text);
    let negative = chars.len() > 0 && chars[0] == '-';
    let start: usize = if chars.len() > 0 && (chars[0] == '-' || chars[0] == '+') {
        1
    } else {
        0
    };
    let ghost body = chars@.skip(start as int);
    assert(start == 0 ==> body =~= text@);
    if start == chars.len() {
        return 0;
    }
    let mut value: i64 = 0;
    let mut i: usize = start;
    while i < chars.len()
        invariant
            start <= i <= chars.len(),
            start < chars.len(),
            chars@ == text@,
            body == chars@.skip(start as int),
            numeral_value(text@) == match digits_value(body) {
                Some(v) => Some(
                    if negative {
                        -v
                    } else {
                        v
                    },
                ),
                None => None,
            },
            0 <= value <= 0x8000_0000,
            i > start ==> digits_value(body.take(i - start)) == Some(value as int),
            i == start ==> value == 0,
        decreases chars.len() - i,
    {
        let c = chars[i];
        let ghost next = body.take(i - start + 1);
        assert(next.last() == c);
        assert(next.drop_last() =~= body.take(i - start));
        if !('0' <= c && c <= '9') {
            proof {
                lemma_digits_prefix(body, i - start + 1);
            }
            return 0;
        }
        let digit = (c as u8 - 48) as i64;
        value = value * 10 + digit;
        if value > 0x8000_0000 {
            proof {
                lemma_digits_prefix(body, i - start + 1);
            }
            return 0;
        }
        i += 1;
    }
    assert(body.take(chars.len() - start) =~= body);
    if negative {
        (-value) as i32
    } else if value > 0x7fff_ffff {
        0
    } else {
        value as i32
    }
}

} // verus!
