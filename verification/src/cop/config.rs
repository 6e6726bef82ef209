use vstd::prelude::*;

verus! {

/// A configuration value of a cop option.
#[derive(Debug)]
pub enum ConfigValue {
    Bool(bool),
    Str(String),
    Int(u64),
    List(Vec<String>),
    /// A version number such as `2.7`: its major and minor parts.
    Version(u64, u64),
}

/// The options that configure one cop, in the order they were given.
#[derive(Debug)]
pub struct CopConfig {
    pub options: Vec<(String, ConfigValue)>,
}

/// The value of the first option of `opts` named `key`.
pub open spec fn lookup(opts: Seq<(String, ConfigValue)>, key: Seq<char>) -> Option<ConfigValue>
    decreases opts.len(),
{
    if opts.len() == 0 {
        None
    } else if opts[0].0@ == key {
        Some(opts[0].1)
    } else {
        lookup(opts.drop_first(), key)
    }
}

/// The text of option `key` when it is a string, else `default`.
pub open spec fn spec_get_str(opts: Seq<(String, ConfigValue)>, key: Seq<char>, default: Seq<char>) -> Seq<char> {
    match lookup(opts, key) {
        Some(ConfigValue::Str(s)) => s@,
        _ => default,
    }
}

/// The flag of option `key` when it is a boolean, else `default`.
pub open spec fn spec_get_bool(opts: Seq<(String, ConfigValue)>, key: Seq<char>, default: bool) -> bool {
    match lookup(opts, key) {
        Some(ConfigValue::Bool(b)) => b,
        _ => default,
    }
}

/// The number of option `key` when it is an integer that fits, else `default`.
pub open spec fn spec_get_usize(opts: Seq<(String, ConfigValue)>, key: Seq<char>, default: usize) -> usize {
    match lookup(opts, key) {
        Some(ConfigValue::Int(n)) => if n <= usize::MAX { n as usize } else { default },
        _ => default,
    }
}

/// The version of option `key` (an integer `n` reads as `n.0`), else `default`.
pub open spec fn spec_get_version(opts: Seq<(String, ConfigValue)>, key: Seq<char>, default: (u64, u64)) -> (u64, u64) {
    match lookup(opts, key) {
        Some(ConfigValue::Version(a, b)) => (a, b),
        Some(ConfigValue::Int(n)) => (n, 0),
        _ => default,
    }
}

/// Version `v` is at least `m`, comparing major parts, then minor parts.
pub open spec fn version_at_least(v: (u64, u64), m: (u64, u64)) -> bool {
    v.0 > m.0 || (v.0 == m.0 && v.1 >= m.1)
}

/// The texts of option `key` when it is a list: a view of each element.
pub open spec fn spec_get_list(opts: Seq<(String, ConfigValue)>, key: Seq<char>) -> Option<Seq<Seq<char>>> {
    match lookup(opts, key) {
        Some(ConfigValue::List(v)) => Some(v@.map_values(|x: String| x@)),
        _ => None,
    }
}

impl Default for CopConfig {
    fn default() -> (r: CopConfig)
        ensures
            r.options@.len() == 0,
    {
        CopConfig { options: Vec::new() }
    }
}

impl CopConfig {
    /// The configuration with one more option, which takes precedence over
    /// any option of the same name given before.
    pub fn with_option(self, key: &str, value: ConfigValue) -> (r: CopConfig)
        ensures
            r.options@.len() == self.options@.len() + 1,
            r.options@[0].0@ == key@,
            r.options@[0].1 == value,
            r.options@.drop_first() == self.options@,
    {
        let mut options = self.options;
        let k = key.to_owned();
        options.insert(0, (k, value));
        assert(options@.drop_first() =~= self.options@);
        CopConfig { options }
    }

    /// Position of the first option named `key`.
    fn find(&self, key: &str) -> (r: Option<usize>)
        ensures
            r matches Some(i) ==> i < self.options@.len() && lookup(self.options@, key@) == Some(
                self.options@[i as int].1,
            ),
            r is None ==> lookup(self.options@, key@) is None,
    {
        let k = key.to_owned();
        let mut i: usize = 0;
        assert(self.options@.subrange(0, self.options@.len() as int) =~= self.options@);
        while i < self.options.len()
            invariant
                i <= self.options@.len(),
                k@ == key@,
                lookup(self.options@, key@) == lookup(
                    self.options@.subrange(i as int, self.options@.len() as int),
                    key@,
                ),
            decreases self.options@.len() - i,
        {
            let ghost rest = self.options@.subrange(i as int, self.options@.len() as int);
            assert(rest.drop_first() =~= self.options@.subrange(i + 1, self.options@.len() as int));
            if self.options[i].0.eq(&k) {
                return Some(i);
            }
            i = i + 1;
        }
        None
    }

    pub fn get_str(&self, key: &str, default: &str) -> (r: String)
        ensures
            r@ == spec_get_str(self.options@, key@, default@),
    {
        match self.find(key) {
            Some(i) => match &self.options[i].1 {
                ConfigValue::Str(s) => s.clone(),
                _ => default.to_owned(),
            },
            None => default.to_owned(),
        }
    }

    pub fn get_bool(&self, key: &str, default: bool) -> (r: bool)
        ensures
            r == spec_get_bool(self.options@, key@, default),
    {
        match self.find(key) {
            Some(i) => match &self.options[i].1 {
                ConfigValue::Bool(b) => *b,
                _ => default,
            },
            None => default,
        }
    }

    pub fn get_usize(&self, key: &str, default: usize) -> (r: usize)
        ensures
            r == spec_get_usize(self.options@, key@, default),
    {
        match self.find(key) {
            Some(i) => match &self.options[i].1 {
                ConfigValue::Int(n) => if *n <= usize::MAX as u64 {
                    *n as usize
                } else {
                    default
                },
                _ => default,
            },
            None => default,
        }
    }

    /// The version option `key`; an integer `n` reads as `n.0`.
    pub fn get_version(&self, key: &str, default: (u64, u64)) -> (r: (u64, u64))
        ensures
            r == spec_get_version(self.options@, key@, default),
    {
        match self.find(key) {
            Some(i) => match &self.options[i].1 {
                ConfigValue::Version(a, b) => (*a, *b),
                ConfigValue::Int(n) => (*n, 0),
                _ => default,
            },
            None => default,
        }
    }

    /// The list option `key`, when it is a list.
    pub fn get_string_array(&self, key: &str) -> (r: Option<&Vec<String>>)
        ensures
            r matches Some(v) ==> spec_get_list(self.options@, key@) == Some(
                v@.map_values(|x: String| x@),
            ),
            r is None ==> spec_get_list(self.options@, key@) is None,
    {
        match self.find(key) {
            Some(i) => match &self.options[i].1 {
                ConfigValue::List(v) => Some(v),
                _ => None,
            },
            None => None,
        }
    }
}

} // verus!
