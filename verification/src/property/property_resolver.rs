//! The capability through which components read configuration properties.

use vstd::prelude::*;
use crate::property::parse::bool_of;
use crate::property::parse::number_of;
use crate::property::parse::parse_bool;
use crate::property::parse::parse_number;
use crate::property::template::agrees_at;
use crate::property::template::expand;
use crate::property::template::expand_with;
use crate::property::template::expansion_is;
use crate::property::template::lemma_expand_agrees;
use crate::property::template::lemma_table_agrees;
use crate::property::template::table_props;
use crate::property::template::template_keys;
use crate::property::template::text_of;
use crate::property::template::texts;
use crate::error::views;
use crate::error::Error;
use crate::error::Failure;
use crate::error::ParseFailure;
use crate::text::to_chars;

verus! {

/// Whether `r` is the number that the expansion `expanded` of a template
/// stands for in a kind named `kind` that reaches from `min` to `max`.
pub open spec fn number_is(
    expanded: Result<Seq<char>, Seq<char>>,
    kind: Seq<char>,
    signed: bool,
    min: int,
    max: int,
    r: Result<int, Error>,
) -> bool {
    match expanded {
        Err(key) => r matches Err(e) && e@ == (Failure::PropertyNotFound { key }),
        Ok(text) => match number_of(text, signed, min, max) {
            Ok(v) => r matches Ok(n) && n == v,
            Err(why) => r matches Err(e) && e@ == (Failure::InvalidValue { kind, why }),
        },
    }
}

/// Whether `r` is the boolean that the expansion `expanded` of a template
/// stands for.
pub open spec fn bool_is(expanded: Result<Seq<char>, Seq<char>>, r: Result<bool, Error>) -> bool {
    match expanded {
        Err(key) => r matches Err(e) && e@ == (Failure::PropertyNotFound { key }),
        Ok(text) => match bool_of(text) {
            Some(b) => r matches Ok(v) && v == b,
            None => r matches Err(e) && e@ == (Failure::InvalidValue {
                kind: "bool"@,
                why: ParseFailure::NotBool,
            }),
        },
    }
}

/// The number under `key` in `numbers`, where there is one and it lies between
/// `min` and `max`.
pub open spec fn number_in(numbers: Map<Seq<char>, int>, key: Seq<char>, min: int, max: int) -> Option<
    int,
> {
    if numbers.contains_key(key) && min <= numbers[key] <= max {
        Some(numbers[key])
    } else {
        None
    }
}

/// A source of configuration properties.
///
/// An implementation hands its properties out by key, as texts and as typed
/// values, and says which it holds: the texts in `properties`, the booleans
/// in `booleans`, the whole numbers in `numbers`. Templates are expanded over
/// the texts.
pub trait PropertyResolver {
    /// The properties that can be read as texts, by key.
    spec fn properties(&self) -> Map<Seq<char>, Seq<char>>;

    /// The properties that can be read as booleans, by key.
    spec fn booleans(&self) -> Map<Seq<char>, bool>;

    /// The properties that can be read as whole numbers, by key.
    spec fn numbers(&self) -> Map<Seq<char>, int>;

    /// The text of the property `key`, if there is one.
    fn get_string(&self, key: &str) -> (value: Option<String>)
        ensures
            match value {
                Some(text) => self.properties().contains_key(key@) && self.properties()[key@]
                    == text@,
                None => !self.properties().contains_key(key@),
            },
    ;

    /// The property `key` as a boolean, if there is one that can be read so.
    fn get_bool(&self, key: &str) -> (value: Option<bool>)
        ensures
            match value {
                Some(flag) => self.booleans().contains_key(key@) && self.booleans()[key@] == flag,
                None => !self.booleans().contains_key(key@),
            },
    ;

    /// The property `key` as an `i8`: the whole number under the key, where
    /// there is one and it is an `i8`.
    fn get_i8(&self, key: &str) -> (value: Option<i8>)
        ensures
            match number_in(self.numbers(), key@, i8::MIN as int, i8::MAX as int) {
                Some(v) => value == Some(v as i8),
                None => value is None,
            },
    ;

    /// The property `key` as an `i16`: the whole number under the key, where
    /// there is one and it is an `i16`.
    fn get_i16(&self, key: &str) -> (value: Option<i16>)
        ensures
            match number_in(self.numbers(), key@, i16::MIN as int, i16::MAX as int) {
                Some(v) => value == Some(v as i16),
                None => value is None,
            },
    ;

    /// The property `key` as an `i32`: the whole number under the key, where
    /// there is one and it is an `i32`.
    fn get_i32(&self, key: &str) -> (value: Option<i32>)
        ensures
            match number_in(self.numbers(), key@, i32::MIN as int, i32::MAX as int) {
                Some(v) => value == Some(v as i32),
                None => value is None,
            },
    ;

    /// The property `key` as an `i64`: the whole number under the key, where
    /// there is one and it is an `i64`.
    fn get_i64(&self, key: &str) -> (value: Option<i64>)
        ensures
            match number_in(self.numbers(), key@, i64::MIN as int, i64::MAX as int) {
                Some(v) => value == Some(v as i64),
                None => value is None,
            },
    ;

    /// The property `key` as a `u8`: the whole number under the key, where
    /// there is one and it is a `u8`.
    fn get_u8(&self, key: &str) -> (value: Option<u8>)
        ensures
            match number_in(self.numbers(), key@, u8::MIN as int, u8::MAX as int) {
                Some(v) => value == Some(v as u8),
                None => value is None,
            },
    ;

    /// The property `key` as a `u16`: the whole number under the key, where
    /// there is one and it is a `u16`.
    fn get_u16(&self, key: &str) -> (value: Option<u16>)
        ensures
            match number_in(self.numbers(), key@, u16::MIN as int, u16::MAX as int) {
                Some(v) => value == Some(v as u16),
                None => value is None,
            },
    ;

    /// The property `key` as a `u32`: the whole number under the key, where
    /// there is one and it is a `u32`.
    fn get_u32(&self, key: &str) -> (value: Option<u32>)
        ensures
            match number_in(self.numbers(), key@, u32::MIN as int, u32::MAX as int) {
                Some(v) => value == Some(v as u32),
                None => value is None,
            },
    ;

    /// The property `key` as a `u64`: the whole number under the key, where
    /// there is one and it is a `u64`.
    fn get_u64(&self, key: &str) -> (value: Option<u64>)
        ensures
            match number_in(self.numbers(), key@, u64::MIN as int, u64::MAX as int) {
                Some(v) => value == Some(v as u64),
                None => value is None,
            },
    ;

    /// The expansion of `template` over the properties.
    ///
    /// Every key that the template holds, at whatever depth, is looked up
    /// first; the template is then expanded over what was found. The
    /// placeholders are taken from left to right and each is replaced, where
    /// it stands, by what it stands for: the property's text, or else the
    /// expansion of its default, which is a template itself. A placeholder, at
    /// whatever depth, that has neither fails the expansion.
    fn compute_template_value(&self, template: &str) -> (r: Result<String, Error>)
        ensures
            expansion_is(expand(template@, self.properties()), r),
    {
        let t = to_chars(template);
        let keys = template_keys(&t);
        let mut found: Vec<Option<String>> = Vec::new();
        let mut i: usize = 0;
        while i < keys.len()
            invariant
                i <= keys.len(),
                found.len() == i,
                forall|k: int|
                    0 <= k < i ==> agrees_at(
                        self.properties(),
                        views(keys@)[k],
                        #[trigger] texts(found@)[k],
                    ),
            decreases keys.len() - i,
        {
            let value = self.get_string(keys[i].as_str());
            let ghost before = texts(found@);
            found.push(value);
            proof {
                assert(texts(found@) == before.push(text_of(value)));
                assert(texts(found@)[i as int] == text_of(value));
                assert forall|k: int| 0 <= k < i + 1 implies agrees_at(
                    self.properties(),
                    views(keys@)[k],
                    #[trigger] texts(found@)[k],
                ) by {
                    if k < i {
                        assert(texts(found@)[k] == before[k]);
                    }
                }
            }
            i += 1;
        }
        proof {
            lemma_table_agrees(views(keys@), texts(found@), self.properties());
            lemma_expand_agrees(
                template@,
                table_props(views(keys@), texts(found@)),
                self.properties(),
            );
        }
        expand_with(template, &keys, &found)
    }

    /// The boolean that the expansion of `template` stands for.
    fn compute_template_value_as_bool(&self, template: &str) -> (r: Result<bool, Error>)
        ensures
            bool_is(expand(template@, self.properties()), r),
    {
        match self.compute_template_value(template) {
            Err(e) => Err(e),
            Ok(text) => match parse_bool(text.as_str()) {
                Ok(b) => Ok(b),
                Err(why) => Err(Error::InvalidValue { kind: "bool".to_string(), why }),
            },
        }
    }

    /// The `i8` that the expansion of `template` stands for.
    fn compute_template_value_as_i8(&self, template: &str) -> (r: Result<i8, Error>)
        ensures
            number_is(
                expand(template@, self.properties()),
                "i8"@,
                true,
                i8::MIN as int,
                i8::MAX as int,
                match r {
                    Ok(n) => Ok(n as int),
                    Err(e) => Err(e),
                },
            ),
    {
        match read_number(self.compute_template_value(template), "i8", true, -0x80, 0x7f) {
            Ok(n) => Ok(n as i8),
            Err(e) => Err(e),
        }
    }

    /// The `i16` that the expansion of `template` stands for.
    fn compute_template_value_as_i16(&self, template: &str) -> (r: Result<i16, Error>)
        ensures
            number_is(
                expand(template@, self.properties()),
                "i16"@,
                true,
                i16::MIN as int,
                i16::MAX as int,
                match r {
                    Ok(n) => Ok(n as int),
                    Err(e) => Err(e),
                },
            ),
    {
        match read_number(self.compute_template_value(template), "i16", true, -0x8000, 0x7fff) {
            Ok(n) => Ok(n as i16),
            Err(e) => Err(e),
        }
    }

    /// The `i32` that the expansion of `template` stands for.
    fn compute_template_value_as_i32(&self, template: &str) -> (r: Result<i32, Error>)
        ensures
            number_is(
                expand(template@, self.properties()),
                "i32"@,
                true,
                i32::MIN as int,
                i32::MAX as int,
                match r {
                    Ok(n) => Ok(n as int),
                    Err(e) => Err(e),
                },
            ),
    {
        match read_number(self.compute_template_value(template), "i32", true, -0x8000_0000, 0x7fff_ffff) {
            Ok(n) => Ok(n as i32),
            Err(e) => Err(e),
        }
    }

    /// The `i64` that the expansion of `template` stands for.
    fn compute_template_value_as_i64(&self, template: &str) -> (r: Result<i64, Error>)
        ensures
            number_is(
                expand(template@, self.properties()),
                "i64"@,
                true,
                i64::MIN as int,
                i64::MAX as int,
                match r {
                    Ok(n) => Ok(n as int),
                    Err(e) => Err(e),
                },
            ),
    {
        match read_number(self.compute_template_value(template), "i64", true, -0x8000_0000_0000_0000, 0x7fff_ffff_ffff_ffff) {
            Ok(n) => Ok(n as i64),
            Err(e) => Err(e),
        }
    }

    /// The `u8` that the expansion of `template` stands for.
    fn compute_template_value_as_u8(&self, template: &str) -> (r: Result<u8, Error>)
        ensures
            number_is(
                expand(template@, self.properties()),
                "u8"@,
                false,
                u8::MIN as int,
                u8::MAX as int,
                match r {
                    Ok(n) => Ok(n as int),
                    Err(e) => Err(e),
                },
            ),
    {
        match read_number(self.compute_template_value(template), "u8", false, 0, 0xff) {
            Ok(n) => Ok(n as u8),
            Err(e) => Err(e),
        }
    }

    /// The `u16` that the expansion of `template` stands for.
    fn compute_template_value_as_u16(&self, template: &str) -> (r: Result<u16, Error>)
        ensures
            number_is(
                expand(template@, self.properties()),
                "u16"@,
                false,
                u16::MIN as int,
                u16::MAX as int,
                match r {
                    Ok(n) => Ok(n as int),
                    Err(e) => Err(e),
                },
            ),
    {
        match read_number(self.compute_template_value(template), "u16", false, 0, 0xffff) {
            Ok(n) => Ok(n as u16),
            Err(e) => Err(e),
        }
    }

    /// The `u32` that the expansion of `template` stands for.
    fn compute_template_value_as_u32(&self, template: &str) -> (r: Result<u32, Error>)
        ensures
            number_is(
                expand(template@, self.properties()),
                "u32"@,
                false,
                u32::MIN as int,
                u32::MAX as int,
                match r {
                    Ok(n) => Ok(n as int),
                    Err(e) => Err(e),
                },
            ),
    {
        match read_number(self.compute_template_value(template), "u32", false, 0, 0xffff_ffff) {
            Ok(n) => Ok(n as u32),
            Err(e) => Err(e),
        }
    }

    /// The `u64` that the expansion of `template` stands for.
    fn compute_template_value_as_u64(&self, template: &str) -> (r: Result<u64, Error>)
        ensures
            number_is(
                expand(template@, self.properties()),
                "u64"@,
                false,
                u64::MIN as int,
                u64::MAX as int,
                match r {
                    Ok(n) => Ok(n as int),
                    Err(e) => Err(e),
                },
            ),
    {
        match read_number(self.compute_template_value(template), "u64", false, 0, 0xffff_ffff_ffff_ffff) {
            Ok(n) => Ok(n as u64),
            Err(e) => Err(e),
        }
    }
}

/// The number that an expanded template stands for in the kind named `kind`.
pub fn read_number(expanded: Result<String, Error>, kind: &str, signed: bool, min: i128, max: i128) -> (r:
    Result<i128, Error>)
    requires
        -0x8000_0000_0000_0000 <= min <= 0 <= max <= 0xffff_ffff_ffff_ffff,
    ensures
        match expanded {
            Err(cause) => r == Err::<i128, Error>(cause),
            Ok(text) => match number_of(text@, signed, min as int, max as int) {
                Ok(v) => r == Ok::<i128, Error>(v as i128) && min <= v <= max,
                Err(why) => r matches Err(e) && e@ == (Failure::InvalidValue { kind: kind@, why }),
            },
        },
{
    match expanded {
        Err(cause) => Err(cause),
        Ok(text) => match parse_number(text.as_str(), signed, min, max) {
            Ok(v) => Ok(v),
            Err(why) => Err(Error::InvalidValue { kind: kind.to_string(), why }),
        },
    }
}

} // verus!
