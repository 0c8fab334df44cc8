//! Properties read from a `config::Config`, and the overrides given on the
//! command line.

use vstd::prelude::*;
use config::Config;
use crate::property::property_resolver::PropertyResolver;
use crate::property::template::find_char;
use crate::property::template::first_at;
use crate::text::slice_to_string;
use crate::text::to_chars;

verus! {

/// `config::Config`, a layered configuration. The verifier sees nothing
/// inside; the texts it holds are named by `config_texts`.
#[verifier::external_type_specification]
#[verifier::external_body]
pub struct ExConfig(Config);

/// The keys under which a configuration holds a value that can be read as a
/// text, each with that text.
pub uninterp spec fn config_texts(c: Config) -> Map<Seq<char>, Seq<char>>;

/// `Config::get_string`, with a failure turned into `None`: the text of the
/// value under `key`, if there is a value and it can be read as a text.
#[verifier::external_body]
fn config_text(c: &Config, key: &str) -> (value: Option<String>)
    ensures
        match value {
            Some(text) => config_texts(*c).contains_key(key@) && config_texts(*c)[key@] == text@,
            None => !config_texts(*c).contains_key(key@),
        },
{
    c.get_string(key).ok()
}

/// The keys under which a configuration holds a value that can be read as a
/// whole number, each with that number.
pub uninterp spec fn config_ints(c: Config) -> Map<Seq<char>, i64>;

/// The keys under which a configuration holds a value that can be read as a
/// boolean, each with that boolean.
pub uninterp spec fn config_bools(c: Config) -> Map<Seq<char>, bool>;

/// `Config::get_bool`, with a failure turned into `None`: the boolean of the
/// value under `key`, if there is a value and it can be read as a boolean.
#[verifier::external_body]
fn config_bool(c: &Config, key: &str) -> (value: Option<bool>)
    ensures
        value == (if config_bools(*c).contains_key(key@) {
            Some(config_bools(*c)[key@])
        } else {
            None
        }),
{
    c.get_bool(key).ok()
}

/// `Config::get_int`, with a failure turned into `None`: the number of the
/// value under `key`, if there is a value and it can be read as a whole number.
#[verifier::external_body]
fn config_int(c: &Config, key: &str) -> (value: Option<i64>)
    ensures
        value == (if config_ints(*c).contains_key(key@) {
            Some(config_ints(*c)[key@])
        } else {
            None
        }),
{
    c.get_int(key).ok()
}

/// `found` where it lies between `min` and `max`.
pub fn within(found: Option<i64>, min: i64, max: i64) -> (r: Option<i64>)
    ensures
        r == (match found {
            Some(v) => if min <= v <= max {
                Some(v)
            } else {
                None
            },
            None => None,
        }),
{
    match found {
        Some(v) => if min <= v && v <= max {
            Some(v)
        } else {
            None
        },
        None => None,
    }
}

impl PropertyResolver for Config {
    open spec fn properties(&self) -> Map<Seq<char>, Seq<char>> {
        config_texts(*self)
    }

    open spec fn booleans(&self) -> Map<Seq<char>, bool> {
        config_bools(*self)
    }

    open spec fn numbers(&self) -> Map<Seq<char>, int> {
        Map::new(
            |key: Seq<char>| config_ints(*self).contains_key(key),
            |key: Seq<char>| config_ints(*self)[key] as int,
        )
    }

    fn get_string(&self, key: &str) -> (value: Option<String>) {
        config_text(self, key)
    }

    fn get_bool(&self, key: &str) -> (value: Option<bool>) {
        config_bool(self, key)
    }

    fn get_i8(&self, key: &str) -> (value: Option<i8>) {
        match within(config_int(self, key), -0x80, 0x7f) {
            Some(v) => Some(v as i8),
            None => None,
        }
    }

    fn get_i16(&self, key: &str) -> (value: Option<i16>) {
        match within(config_int(self, key), -0x8000, 0x7fff) {
            Some(v) => Some(v as i16),
            None => None,
        }
    }

    fn get_i32(&self, key: &str) -> (value: Option<i32>) {
        match within(config_int(self, key), -0x8000_0000, 0x7fff_ffff) {
            Some(v) => Some(v as i32),
            None => None,
        }
    }

    fn get_i64(&self, key: &str) -> (value: Option<i64>) {
        match within(config_int(self, key), -0x8000_0000_0000_0000, 0x7fff_ffff_ffff_ffff) {
            Some(v) => Some(v as i64),
            None => None,
        }
    }

    fn get_u8(&self, key: &str) -> (value: Option<u8>) {
        match within(config_int(self, key), 0, 0xff) {
            Some(v) => Some(v as u8),
            None => None,
        }
    }

    fn get_u16(&self, key: &str) -> (value: Option<u16>) {
        match within(config_int(self, key), 0, 0xffff) {
            Some(v) => Some(v as u16),
            None => None,
        }
    }

    fn get_u32(&self, key: &str) -> (value: Option<u32>) {
        match within(config_int(self, key), 0, 0xffff_ffff) {
            Some(v) => Some(v as u32),
            None => None,
        }
    }

    fn get_u64(&self, key: &str) -> (value: Option<u64>) {
        match within(config_int(self, key), 0, 0x7fff_ffff_ffff_ffff) {
            Some(v) => Some(v as u64),
            None => None,
        }
    }
}

/// The key and the value of a command-line argument of the form
/// `--key=value`: the key is what stands between the two dashes and the first
/// `=`, the value what stands behind it. Any other argument gives nothing.
pub open spec fn override_of(arg: Seq<char>) -> Option<(Seq<char>, Seq<char>)> {
    if arg.len() >= 2 && arg[0] == '-' && arg[1] == '-' && first_at(arg, '=', 2) < arg.len() {
        Some((arg.subrange(2, first_at(arg, '=', 2)), arg.skip(first_at(arg, '=', 2) + 1)))
    } else {
        None
    }
}

/// The key and the value of a command-line argument of the form `--key=value`.
pub fn parse_override(arg: &str) -> (r: Option<(String, String)>)
    ensures
        match override_of(arg@) {
            Some((key, value)) => r matches Some(pair) && pair.0@ == key && pair.1@ == value,
            None => r is None,
        },
{
    let chars = to_chars(arg);
    if chars.len() < 2 || chars[0] != '-' || chars[1] != '-' {
        return None;
    }
    proof {
        assert(chars@.take(chars.len() as int) == chars@);
    }
    let at = find_char(&chars, '=', 2, chars.len());
    if at < chars.len() {
        let key = slice_to_string(&chars, 2, at);
        let value = slice_to_string(&chars, at + 1, chars.len());
        proof {
            assert(chars@.subrange(at + 1, chars.len() as int) == chars@.skip(at + 1));
        }
        Some((key, value))
    } else {
        None
    }
}

} // verus!
