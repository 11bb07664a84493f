//! The command-line surface: the raw flags and the digested arguments.
//!
//! Flag parsing itself is the embedding program's job; here stands the
//! digestion of the raw values: splitting `key=value` attachments and
//! assembling the attach map.

use vstd::prelude::*;

use crate::config::prop::LoggerLevel;
use crate::vars::Vars;

verus! {

/// The raw command-line flags: the configuration path, the repeatable
/// `key=value` attachments, and the console log level.
pub struct SoftStaticArgs {
    pub config_path: String,
    pub variable: Vec<String>,
    pub console_log_level: LoggerLevel,
}

/// The digested command line.
pub struct SoftArgs {
    pub config_path: String,
    pub log_level: LoggerLevel,
    pub variable: Vars,
}

/// The index of the first `=` in `s`, or the length when there is
/// none.
pub open spec fn spec_first_eq(s: Seq<char>) -> int
    decreases s.len(),
{
    if s.len() == 0 {
        0
    } else if s[0] == '=' {
        0
    } else {
        1 + spec_first_eq(s.skip(1))
    }
}

pub proof fn lemma_first_eq_bounds(s: Seq<char>)
    ensures
        0 <= spec_first_eq(s) <= s.len(),
    decreases s.len(),
{
    if s.len() > 0 && s[0] != '=' {
        lemma_first_eq_bounds(s.skip(1));
    }
}

/// How one `key=value` attachment lands in the map: the text before
/// the first `=` is the key, the text after it the value; an entry
/// without `=` is dropped.
pub open spec fn spec_attach_pair(s: Seq<char>) -> Option<(Seq<char>, Seq<char>)> {
    let cut = spec_first_eq(s);
    if cut == s.len() {
        None
    } else {
        Some((s.subrange(0, cut), s.subrange(cut + 1, s.len() as int)))
    }
}

/// The attach map an entry list produces: each splitting entry
/// inserted in order, a later entry overwriting an earlier one with
/// the same key; entries without `=` change nothing.
pub open spec fn spec_attach_fold(entries: Seq<crate::vars::VarEntry>, raws: Seq<String>)
    -> Seq<crate::vars::VarEntry>
    decreases raws.len(),
{
    if raws.len() == 0 {
        entries
    } else {
        let next = match spec_attach_pair(raws[0]@) {
            Some(p) => crate::vars::spec_insert_entry(entries, p.0, p.1),
            None => entries,
        };
        spec_attach_fold(next, raws.skip(1))
    }
}

impl SoftArgs {
    /// Digest raw flags: split each `key=value` attachment on its
    /// first `=` and insert it, later entries overwriting earlier
    /// ones; entries without `=` are dropped.
    pub fn digest(raw: SoftStaticArgs) -> (r: SoftArgs)
        ensures
            r.config_path@ == raw.config_path@,
            r.log_level == raw.console_log_level,
            r.variable.wf(),
            r.variable.entries() == spec_attach_fold(Seq::empty(), raw.variable@),
    {
        let mut vars = Vars::new();
        let n = raw.variable.len();
        let mut i: usize = 0;
        proof {
            assert(raw.variable@.skip(0) =~= raw.variable@);
        }
        while i < n
            invariant
                n == raw.variable@.len(),
                i <= n,
                vars.wf(),
                spec_attach_fold(Seq::empty(), raw.variable@) == spec_attach_fold(
                    vars.entries(),
                    raw.variable@.skip(i as int),
                ),
            decreases n - i,
        {
            proof {
                assert(raw.variable@.skip(i as int)[0] == raw.variable@[i as int]);
                assert(raw.variable@.skip(i as int).skip(1) =~= raw.variable@.skip(i + 1 as int));
            }
            let entry = &raw.variable[i];
            let chars = crate::utils::string::str_to_chars(entry.as_str());
            let m = chars.len();
            let mut cut: usize = 0;
            proof {
                assert(chars@.skip(0) =~= chars@);
            }
            while cut < m && chars[cut] != '='
                invariant
                    m == chars@.len(),
                    cut <= m,
                    spec_first_eq(chars@) == cut + spec_first_eq(chars@.skip(cut as int)),
                decreases m - cut,
            {
                proof {
                    assert(chars@.skip(cut as int)[0] == chars@[cut as int]);
                    assert(chars@.skip(cut as int).skip(1) =~= chars@.skip(cut + 1 as int));
                }
                cut = cut + 1;
            }
            proof {
                if cut < m {
                    assert(chars@.skip(cut as int)[0] == chars@[cut as int]);
                } else {
                    assert(chars@.skip(cut as int) =~= Seq::<char>::empty());
                }
                assert(spec_first_eq(chars@) == cut);
            }
            if cut < m {
                let key_chars = crate::utils::string::str_to_chars(entry.as_str());
                let mut key: Vec<char> = Vec::new();
                let mut t: usize = 0;
                while t < cut
                    invariant
                        cut <= m,
                        m == key_chars@.len(),
                        key_chars@ == chars@,
                        t <= cut,
                        key@ =~= chars@.subrange(0, t as int),
                    decreases cut - t,
                {
                    key.push(key_chars[t]);
                    proof {
                        assert(key@ =~= chars@.subrange(0, t + 1 as int));
                    }
                    t = t + 1;
                }
                let mut value: Vec<char> = Vec::new();
                let mut t: usize = cut + 1;
                while t < m
                    invariant
                        cut < m,
                        m == key_chars@.len(),
                        key_chars@ == chars@,
                        cut + 1 <= t <= m,
                        value@ =~= chars@.subrange(cut + 1 as int, t as int),
                    decreases m - t,
                {
                    value.push(key_chars[t]);
                    proof {
                        assert(value@ =~= chars@.subrange(cut + 1 as int, t + 1 as int));
                    }
                    t = t + 1;
                }
                let ks = crate::utils::string::chars_to_string(&key);
                let vs = crate::utils::string::chars_to_string(&value);
                proof {
                    assert(spec_attach_pair(entry@) == Some((ks@, vs@)));
                }
                vars.insert(ks, vs);
            }
            i = i + 1;
        }
        proof {
            assert(raw.variable@.skip(i as int) =~= Seq::<String>::empty());
        }
        SoftArgs { config_path: raw.config_path, log_level: raw.console_log_level, variable: vars }
    }
}

} // verus!
