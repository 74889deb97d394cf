//! Collection-creation-time configuration: key field, identity strategy,
//! uniqueness and nullability declarations, and a default time-to-live,
//! validated once by a pure check.

use vstd::prelude::*;
use crate::error::StoreError;
use crate::value::str_eq;

verus! {

/// Time-to-live policy for a newly written document entry, in seconds.
#[derive(Debug, Clone, Copy, PartialEq, Eq, Structural)]
pub enum TTL {
    NoTTL,
    GlobalTTL(u64),
    CustomTTL(u64),
}

/// Identity-generation strategy for a collection.
#[derive(Debug, Clone, Copy, PartialEq, Eq, Structural)]
pub enum KeyType {
    /// Identities are the decimal form of a counter that only grows.
    Increment,
    /// Identities are freshly generated UUID strings.
    UUID,
    /// The identity is read from the key field of the incoming document.
    StringField,
    /// As `StringField`: the caller supplies the key field's value.
    CustomField,
}

/// Declarations a collection is created from.
pub struct CollectionConfig<'a> {
    pub key_field: Option<&'a str>,
    pub key_type: Option<KeyType>,
    pub unique_keys: Vec<&'a str>,
    pub not_null_fields: Vec<&'a str>,
    pub nullable_fields: Vec<&'a str>,
    pub field_types: Vec<(&'a str, &'a str)>,
    pub ttl: Option<TTL>,
}

/// The `CustomField` strategy was chosen but no key field was set.
pub open spec fn custom_without_key(c: CollectionConfig<'_>) -> bool {
    c.key_type == Some(KeyType::CustomField) && c.key_field is None
}

/// A key field was set but does not appear among the typed fields.
pub open spec fn key_field_undeclared(c: CollectionConfig<'_>) -> bool {
    match c.key_field {
        Some(kf) => !(exists|i: int|
            0 <= i < c.field_types@.len() && c.field_types@[i].0@ == kf@),
        None => false,
    }
}

/// Some field is declared both not-null and nullable.
pub open spec fn null_conflict(c: CollectionConfig<'_>) -> bool {
    exists|i: int, j: int|
        0 <= i < c.not_null_fields@.len() && 0 <= j < c.nullable_fields@.len()
            && c.not_null_fields@[i]@ == c.nullable_fields@[j]@
}

impl<'a> CollectionConfig<'a> {
    /// An empty configuration: nothing declared, no default time-to-live.
    pub fn new() -> (r: Self)
        ensures
            r.key_field is None,
            r.key_type is None,
            r.unique_keys@.len() == 0,
            r.not_null_fields@.len() == 0,
            r.nullable_fields@.len() == 0,
            r.field_types@.len() == 0,
            r.ttl is None,
    {
        CollectionConfig {
            key_field: None,
            key_type: None,
            unique_keys: Vec::new(),
            not_null_fields: Vec::new(),
            nullable_fields: Vec::new(),
            field_types: Vec::new(),
            ttl: None,
        }
    }

    /// Sets the key field.
    pub fn key(self, key_field: &'a str) -> (r: Self)
        ensures
            r == (CollectionConfig { key_field: Some(key_field), ..self }),
    {
        CollectionConfig { key_field: Some(key_field), ..self }
    }

    /// Sets the identity strategy.
    pub fn key_type(self, key_type: KeyType) -> (r: Self)
        ensures
            r == (CollectionConfig { key_type: Some(key_type), ..self }),
    {
        CollectionConfig { key_type: Some(key_type), ..self }
    }

    /// Sets the unique fields.
    pub fn unique_keys(self, keys: Vec<&'a str>) -> (r: Self)
        ensures
            r == (CollectionConfig { unique_keys: keys, ..self }),
    {
        CollectionConfig { unique_keys: keys, ..self }
    }

    /// Sets the fields that must not be null.
    pub fn not_null(self, fields: Vec<&'a str>) -> (r: Self)
        ensures
            r == (CollectionConfig { not_null_fields: fields, ..self }),
    {
        CollectionConfig { not_null_fields: fields, ..self }
    }

    /// Sets the fields that may be null.
    pub fn nullable(self, fields: Vec<&'a str>) -> (r: Self)
        ensures
            r == (CollectionConfig { nullable_fields: fields, ..self }),
    {
        CollectionConfig { nullable_fields: fields, ..self }
    }

    /// Sets the (field name, type name) declarations.
    pub fn field_types(self, types: Vec<(&'a str, &'a str)>) -> (r: Self)
        ensures
            r == (CollectionConfig { field_types: types, ..self }),
    {
        CollectionConfig { field_types: types, ..self }
    }

    /// Sets the default time-to-live.
    pub fn ttl(self, ttl: TTL) -> (r: Self)
        ensures
            r == (CollectionConfig { ttl: Some(ttl), ..self }),
    {
        CollectionConfig { ttl: Some(ttl), ..self }
    }

    /// Checks the declarations once, at collection-creation time: the
    /// `CustomField` strategy demands a key field, a declared key field must
    /// be among the typed fields, and no field may be both not-null and
    /// nullable.
    pub fn validate(&self) -> (r: Result<(), StoreError>)
        ensures
            r is Ok <==> !custom_without_key(*self) && !key_field_undeclared(*self)
                && !null_conflict(*self),
            r is Err ==> r == Err::<(), StoreError>(StoreError::ConfigValidation),
    {
        if matches!(self.key_type, Some(KeyType::CustomField)) && self.key_field.is_none() {
            return Err(StoreError::ConfigValidation);
        }
        if let Some(kf) = self.key_field {
            let n = self.field_types.len();
            let mut i: usize = 0;
            let mut declared = false;
            while i < n
                invariant
                    i <= n,
                    n == self.field_types@.len(),
                    declared ==> exists|k: int|
                        0 <= k < n && self.field_types@[k].0@ == kf@,
                    !declared ==> forall|k: int| 0 <= k < i ==> self.field_types@[k].0@ != kf@,
                decreases n - i,
            {
                if !declared && str_eq(self.field_types[i].0, kf) {
                    declared = true;
                }
                i += 1;
            }
            if !declared {
                return Err(StoreError::ConfigValidation);
            }
        }
        let nn = self.not_null_fields.len();
        let mut i: usize = 0;
        while i < nn
            invariant
                i <= nn,
                nn == self.not_null_fields@.len(),
                forall|a: int, b: int|
                    0 <= a < i && 0 <= b < self.nullable_fields@.len()
                        ==> self.not_null_fields@[a]@ != self.nullable_fields@[b]@,
            decreases nn - i,
        {
            let nl = self.nullable_fields.len();
            let mut j: usize = 0;
            while j < nl
                invariant
                    i < nn,
                    j <= nl,
                    nn == self.not_null_fields@.len(),
                    nl == self.nullable_fields@.len(),
                    forall|a: int, b: int|
                        0 <= a < i && 0 <= b < nl ==> self.not_null_fields@[a]@
                            != self.nullable_fields@[b]@,
                    forall|b: int| 0 <= b < j ==> self.not_null_fields@[i as int]@
                        != self.nullable_fields@[b]@,
                decreases nl - j,
            {
                if str_eq(self.not_null_fields[i], self.nullable_fields[j]) {
                    return Err(StoreError::ConfigValidation);
                }
                j += 1;
            }
            i += 1;
        }
        Ok(())
    }
}

} // verus!
