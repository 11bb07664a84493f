//! The argument and environment builder.
//!
//! From the loaded configuration, the process environment and the
//! contents of the variable source files, the builder assembles the
//! variable map, validates each argument specification against its
//! regular expression, and splits the accepted arguments into the
//! child's command line, its environment and the `{{name}}` map handed
//! to the hook scripts.

use vstd::prelude::*;

use crate::SoftError;
use crate::config::prop::{ProjectArgs, ProjectConfig, ProjectConfigAlias, SourceKeyMode};
use crate::utils::log::{warn, Logger};
use crate::utils::string::{
    chars_to_string,
    get_value_from_exp,
    spec_expand,
    spec_trim,
    str_to_chars,
    trim_chars,
};
use crate::vars::{
    entries_contain_key,
    entries_lookup,
    spec_insert_entry,
    VarEntry,
    Vars,
};

verus! {

/// What the builder hands the binary worker: the command line, the
/// environment, and the `{{name}}` map for the hook scripts.
pub struct BinaryContext {
    pub args: Vec<String>,
    pub envs: Vars,
    pub script_vars: Vars,
}

/// One accepted argument.
pub struct BinaryArg {
    pub key: String,
    pub value: String,
    pub mode: SourceKeyMode,
}

// ---------------------------------------------------------------------
// The validation regex, through the regex crate.
// ---------------------------------------------------------------------

/// Whether this pattern is a valid regular expression.
pub uninterp spec fn regex_ok(pat: Seq<char>) -> bool;

/// Whether the pattern matches somewhere in the text.
pub uninterp spec fn regex_matches(pat: Seq<char>, text: Seq<char>) -> bool;

/// Relies on `regex::Regex::new`: whether the pattern compiles.  An
/// empty pattern always does.
#[verifier::external_body]
fn regex_pattern_ok(pat: &str) -> (r: bool)
    ensures
        r == regex_ok(pat@),
        pat@.len() == 0 ==> r,
{
    regex::Regex::new(pat).is_ok()
}

/// Relies on `regex::Regex::is_match`: whether the compiled pattern
/// matches somewhere in the text.  The result depends on the pattern
/// and the text alone, and an empty pattern matches every text.
#[verifier::external_body]
fn regex_is_match(pat: &str, text: &str) -> (r: bool)
    requires
        regex_ok(pat@),
    ensures
        r == regex_matches(pat@, text@),
        pat@.len() == 0 ==> r,
{
    match regex::Regex::new(pat) {
        Ok(re) => re.is_match(text),
        Err(_) => false,
    }
}

// ---------------------------------------------------------------------
// Argument validation.
// ---------------------------------------------------------------------

/// The first expression that fully expands and matches the pattern.
pub open spec fn spec_accepted_value(
    exprs: Seq<Seq<char>>,
    pat: Seq<char>,
    entries: Seq<VarEntry>,
) -> Option<Seq<char>>
    decreases exprs.len(),
{
    if exprs.len() == 0 {
        None
    } else {
        match spec_expand(exprs[0], entries) {
            Some(v) => if regex_matches(pat, v) {
                Some(v)
            } else {
                spec_accepted_value(exprs.skip(1), pat, entries)
            },
            None => spec_accepted_value(exprs.skip(1), pat, entries),
        }
    }
}

/// Validate one argument specification against the variable map: the
/// first expression that expands and matches the trimmed regex is
/// accepted; a bad regex is fatal, and so is a mandatory argument with
/// no accepted expression.
pub fn get_then_check_arg(args: &ProjectArgs, vars: &Vars, logger: &Logger) -> (r: Result<
    Option<BinaryArg>,
    SoftError,
>)
    requires
        spec_arg_exprs_terminate(*args, vars.entries()),
    ensures
        ({
            let pat = spec_trim(args.valid_regex@);
            let accepted = spec_accepted_value(
                args.expr@.map_values(|e: String| e@),
                pat,
                vars.entries(),
            );
            match r {
                Ok(ob) => regex_ok(pat) && match ob {
                    Some(b) => accepted == Some(b.value@) && b.key@ == args.key@ && b.mode
                        == args.mode,
                    None => accepted is None && !args.must,
                },
                Err(e) => (e is AppError) && (!regex_ok(pat) || (args.must && accepted
                    is None)),
            }
        }),
{
    let ghost exprseq = args.expr@.map_values(|e: String| e@);
    let regex_chars = str_to_chars(args.valid_regex.as_str());
    let trimmed = trim_chars(&regex_chars);
    let pat = chars_to_string(&trimmed);
    if !regex_pattern_ok(pat.as_str()) {
        return Err(
            SoftError::AppError(
                String::from_str("the validation regex of an argument does not compile."),
            ),
        );
    }
    let n = args.expr.len();
    let mut i: usize = 0;
    proof {
        assert(exprseq.skip(0) =~= exprseq);
    }
    while i < n
        invariant
            n == args.expr@.len(),
            exprseq == args.expr@.map_values(|e: String| e@),
            pat@ == spec_trim(args.valid_regex@),
            regex_ok(pat@),
            spec_arg_exprs_terminate(*args, vars.entries()),
            i <= n,
            spec_accepted_value(exprseq, pat@, vars.entries()) == spec_accepted_value(
                exprseq.skip(i as int),
                pat@,
                vars.entries(),
            ),
        decreases n - i,
    {
        proof {
            assert(exprseq.skip(i as int)[0] == exprseq[i as int]);
            assert(exprseq[i as int] == args.expr@[i as int]@);
            assert(exprseq.skip(i as int).skip(1) =~= exprseq.skip(i + 1 as int));
        }
        match get_value_from_exp(args.expr[i].as_str(), vars) {
            None => {
                warn(
                    logger,
                    String::from_str("an argument expression cannot be computed: ").concat(
                        args.expr[i].as_str(),
                    ),
                );
            },
            Some(filled) => {
                if regex_is_match(pat.as_str(), filled.as_str()) {
                    return Ok(
                        Some(
                            BinaryArg {
                                key: args.key.clone(),
                                value: filled,
                                mode: args.mode,
                            },
                        ),
                    );
                }
                // the message tokens are each substituted once, in a
                // single pass, as a plain replace
                let mchars = str_to_chars(args.valid_message.as_str());
                let vpat = str_to_chars("{{message.value}}");
                let vrep = str_to_chars(filled.as_str());
                let m1 = crate::utils::string::replace_chars(&mchars, &vpat, &vrep);
                let kpat = str_to_chars("{{message.key}}");
                let krep = str_to_chars(args.expr[i].as_str());
                let m2 = crate::utils::string::replace_chars(&m1, &kpat, &krep);
                warn(logger, chars_to_string(&m2));
            },
        }
        i = i + 1;
    }
    proof {
        assert(exprseq.skip(i as int) =~= Seq::<Seq<char>>::empty());
    }
    if args.must {
        Err(
            SoftError::AppError(
                String::from_str("no value found for a mandatory argument: ").concat(
                    args.key.as_str(),
                ),
            ),
        )
    } else {
        Ok(None)
    }
}

// ---------------------------------------------------------------------
// Variable sources.
// ---------------------------------------------------------------------

/// The index of the first line break, or the length when there is
/// none.
pub open spec fn spec_first_nl(s: Seq<char>) -> int
    decreases s.len(),
{
    if s.len() == 0 {
        0
    } else if s[0] == '\n' {
        0
    } else {
        1 + spec_first_nl(s.skip(1))
    }
}

pub proof fn lemma_first_nl_bounds(s: Seq<char>)
    ensures
        0 <= spec_first_nl(s) <= s.len(),
    decreases s.len(),
{
    if s.len() > 0 && s[0] != '\n' {
        lemma_first_nl_bounds(s.skip(1));
    }
}

/// `s` cut at every line break.
pub open spec fn spec_split_nl(s: Seq<char>) -> Seq<Seq<char>>
    decreases s.len(),
    via spec_split_nl_decreases
{
    if spec_first_nl(s) == s.len() {
        seq![s]
    } else {
        seq![s.subrange(0, spec_first_nl(s))] + spec_split_nl(s.skip(spec_first_nl(s) + 1))
    }
}

#[via_fn]
proof fn spec_split_nl_decreases(s: Seq<char>) {
    lemma_first_nl_bounds(s);
}

/// A line without its trailing carriage return.
pub open spec fn spec_strip_cr(line: Seq<char>) -> Seq<char> {
    if line.len() > 0 && line[line.len() - 1] == '\r' {
        line.drop_last()
    } else {
        line
    }
}

/// The lines of `s`: cut at line breaks, the carriage returns
/// stripped, and the empty segment after a final line break dropped.
pub open spec fn spec_lines(s: Seq<char>) -> Seq<Seq<char>> {
    let parts = spec_split_nl(s);
    let kept = if parts.len() > 0 && parts.last().len() == 0 {
        parts.drop_last()
    } else {
        parts
    };
    kept.map_values(|l: Seq<char>| spec_strip_cr(l))
}

/// One properties line folded into the entries: comment lines and
/// lines without `=` change nothing; otherwise the text before the
/// first `=` is the key and the text after it the value, overwriting
/// when `cover` is set and kept out otherwise.
pub open spec fn spec_apply_prop_line(entries: Seq<VarEntry>, line: Seq<char>, cover: bool)
    -> Seq<VarEntry> {
    if line.len() > 0 && line[0] == '#' {
        entries
    } else {
        let cut = crate::config::args::spec_first_eq(line);
        if cut == line.len() {
            entries
        } else {
            let k = line.subrange(0, cut);
            let v = line.subrange(cut + 1, line.len() as int);
            if cover {
                spec_insert_entry(entries, k, v)
            } else if entries_contain_key(entries, k) {
                entries
            } else {
                entries.push((k, v))
            }
        }
    }
}

/// A batch of properties lines folded front to back.
pub open spec fn spec_apply_prop_lines(
    entries: Seq<VarEntry>,
    lines: Seq<Seq<char>>,
    cover: bool,
) -> Seq<VarEntry>
    decreases lines.len(),
{
    if lines.len() == 0 {
        entries
    } else {
        spec_apply_prop_lines(spec_apply_prop_line(entries, lines[0], cover), lines.skip(1), cover)
    }
}

/// The lines of `s`, each without its trailing carriage return.
fn split_lines(s: &Vec<char>) -> (r: Vec<Vec<char>>)
    ensures
        r@.map_values(|v: Vec<char>| v@) == spec_lines(s@),
{
    let n = s.len();
    let mut parts: Vec<Vec<char>> = Vec::new();
    let mut start: usize = 0;
    proof {
        assert(s@.skip(0) =~= s@);
        assert(parts@.map_values(|v: Vec<char>| v@) =~= Seq::<Seq<char>>::empty());
    }
    while start <= n
        invariant_except_break
            spec_split_nl(s@) =~= parts@.map_values(|v: Vec<char>| v@) + spec_split_nl(
                s@.skip(start as int),
            ),
        invariant
            n == s@.len(),
            start <= n,
        ensures
            parts@.map_values(|v: Vec<char>| v@) =~= spec_split_nl(s@),
        decreases n + 1 - start,
    {
        let ghost pre = parts@;
        let ghost tail = s@.skip(start as int);
        let mut j: usize = start;
        while j < n && s[j] != '\n'
            invariant
                n == s@.len(),
                start <= j <= n,
                tail == s@.skip(start as int),
                spec_first_nl(tail) == (j - start) + spec_first_nl(s@.skip(j as int)),
            decreases n - j,
        {
            proof {
                assert(s@.skip(j as int)[0] == s@[j as int]);
                assert(s@.skip(j as int).skip(1) =~= s@.skip(j + 1 as int));
            }
            j = j + 1;
        }
        proof {
            if j < n {
                assert(s@.skip(j as int)[0] == s@[j as int]);
                assert(spec_first_nl(s@.skip(j as int)) == 0);
            } else {
                assert(s@.skip(j as int) =~= Seq::<char>::empty());
            }
            assert(spec_first_nl(tail) == j - start);
            assert(tail.subrange(0, j - start) =~= s@.subrange(start as int, j as int));
        }
        let part = crate::utils::string::copy_range(s, start, j);
        parts.push(part);
        proof {
            assert(parts@.map_values(|v: Vec<char>| v@) =~= pre.map_values(|v: Vec<char>| v@).push(
                tail.subrange(0, j - start),
            ));
        }
        if j == n {
            proof {
                assert(spec_first_nl(tail) == tail.len());
                assert(spec_split_nl(tail) == seq![tail]);
                assert(tail.subrange(0, j - start) =~= tail);
                assert(pre.map_values(|v: Vec<char>| v@).push(tail) =~= pre.map_values(
                    |v: Vec<char>| v@,
                ) + seq![tail]);
                assert(parts@.map_values(|v: Vec<char>| v@) =~= spec_split_nl(s@));
            }
            break;
        } else {
            proof {
                assert(spec_first_nl(tail) < tail.len());
                assert(spec_split_nl(tail) == seq![tail.subrange(0, j - start)] + spec_split_nl(
                    tail.skip(j - start + 1),
                ));
                assert(tail.skip(j - start + 1) =~= s@.skip(j + 1 as int));
                assert(pre.map_values(|v: Vec<char>| v@).push(tail.subrange(0, j - start))
                    + spec_split_nl(s@.skip(j + 1 as int)) =~= pre.map_values(|v: Vec<char>| v@) + (
                seq![tail.subrange(0, j - start)] + spec_split_nl(s@.skip(j + 1 as int))));
            }
            start = j + 1;
        }
    }
    // drop the empty segment after a final line break
    let mut keep = parts;
    let k = keep.len();
    if k > 0 && keep[k - 1].len() == 0 {
        let ghost prek = keep@;
        let _ = keep.pop();
        proof {
            assert(keep@.map_values(|v: Vec<char>| v@) =~= prek.map_values(
                |v: Vec<char>| v@,
            ).drop_last());
        }
    }
    // strip carriage returns
    let m = keep.len();
    let ghost keptseq = keep@.map_values(|v: Vec<char>| v@);
    let mut out: Vec<Vec<char>> = Vec::new();
    let mut i: usize = 0;
    while i < m
        invariant
            m == keep@.len(),
            keptseq == keep@.map_values(|v: Vec<char>| v@),
            i <= m,
            out@.map_values(|v: Vec<char>| v@) =~= keptseq.map_values(
                |l: Seq<char>| spec_strip_cr(l),
            ).subrange(0, i as int),
        decreases m - i,
    {
        let ghost preo = out@;
        let line = &keep[i];
        let ln = line.len();
        let stripped = if ln > 0 && line[ln - 1] == '\r' {
            crate::utils::string::copy_range(line, 0, ln - 1)
        } else {
            crate::utils::string::copy_range(line, 0, ln)
        };
        proof {
            assert(keptseq[i as int] == keep@[i as int]@);
            if ln > 0 && keep@[i as int]@[ln - 1] == '\r' {
                assert(stripped@ =~= spec_strip_cr(keptseq[i as int]));
            } else {
                assert(stripped@ =~= keptseq[i as int]);
            }
        }
        out.push(stripped);
        proof {
            assert(out@.map_values(|v: Vec<char>| v@) =~= preo.map_values(|v: Vec<char>| v@).push(
                spec_strip_cr(keptseq[i as int]),
            ));
            assert(preo.map_values(|v: Vec<char>| v@).push(spec_strip_cr(keptseq[i as int]))
                =~= keptseq.map_values(|l: Seq<char>| spec_strip_cr(l)).subrange(0, i + 1 as int));
        }
        i = i + 1;
    }
    proof {
        assert(keptseq.map_values(|l: Seq<char>| spec_strip_cr(l)).subrange(0, m as int)
            =~= keptseq.map_values(|l: Seq<char>| spec_strip_cr(l)));
    }
    out
}

/// Load properties text into the variable map: one `key=value` per
/// line, `#` comments and lines without `=` ignored; without `cover`
/// the first write wins.
pub fn load_properties(container: &mut Vars, data: &str, cover: bool) -> (r: Result<
    (),
    SoftError,
>)
    requires
        old(container).wf(),
    ensures
        final(container).wf(),
        r is Ok,
        final(container).entries() == spec_apply_prop_lines(
            old(container).entries(),
            spec_lines(data@),
            cover,
        ),
{
    let chars = str_to_chars(data);
    let lines = split_lines(&chars);
    let ghost lineseq = spec_lines(data@);
    let n = lines.len();
    let mut i: usize = 0;
    proof {
        assert(lineseq.skip(0) =~= lineseq);
    }
    while i < n
        invariant
            n == lines@.len(),
            lines@.map_values(|v: Vec<char>| v@) == lineseq,
            i <= n,
            container.wf(),
            spec_apply_prop_lines(old(container).entries(), lineseq, cover)
                == spec_apply_prop_lines(container.entries(), lineseq.skip(i as int), cover),
        decreases n - i,
    {
        let ghost tail = lineseq.skip(i as int);
        proof {
            assert(tail[0] == lineseq[i as int]);
            assert(lineseq[i as int] == lines@[i as int]@);
            assert(tail.skip(1) =~= lineseq.skip(i + 1 as int));
        }
        let line = &lines[i];
        let ln = line.len();
        if !(ln > 0 && line[0] == '#') {
            // find the first '='
            let mut cut: usize = 0;
            proof {
                assert(line@.skip(0) =~= line@);
            }
            while cut < ln && line[cut] != '='
                invariant
                    ln == line@.len(),
                    cut <= ln,
                    crate::config::args::spec_first_eq(line@) == cut
                        + crate::config::args::spec_first_eq(line@.skip(cut as int)),
                decreases ln - cut,
            {
                proof {
                    assert(line@.skip(cut as int)[0] == line@[cut as int]);
                    assert(line@.skip(cut as int).skip(1) =~= line@.skip(cut + 1 as int));
                }
                cut = cut + 1;
            }
            proof {
                if cut < ln {
                    assert(line@.skip(cut as int)[0] == line@[cut as int]);
                } else {
                    assert(line@.skip(cut as int) =~= Seq::<char>::empty());
                }
                assert(crate::config::args::spec_first_eq(line@) == cut);
            }
            if cut < ln {
                let key_chars = crate::utils::string::copy_range(line, 0, cut);
                let val_chars = crate::utils::string::copy_range(line, cut + 1, ln);
                let key = chars_to_string(&key_chars);
                let value = chars_to_string(&val_chars);
                if cover {
                    container.insert(key, value);
                } else {
                    container.insert_if_absent(key, value);
                }
            }
        }
        i = i + 1;
    }
    proof {
        assert(lineseq.skip(i as int) =~= Seq::<Seq<char>>::empty());
    }
    Ok(())
}

/// The key/value pairs a YAML variable source holds: the entries of
/// its top-level mapping, with string keys and scalar values rendered
/// as text, in document order; nothing for any other document.
pub uninterp spec fn yaml_pairs_of(s: Seq<char>) -> Option<Seq<VarEntry>>;

/// Relies on `serde_yaml::from_str` and `serde_yaml::Value`: parses
/// the text and hands out the top-level mapping's entries, scalars
/// rendered as text.  A document that is no such mapping yields
/// nothing.  The result depends on the text alone.
#[verifier::external_body]
fn parse_yaml_pairs(data: &str) -> (r: Option<Vec<(String, String)>>)
    ensures
        match r {
            Some(v) => yaml_pairs_of(data@) == Some(
                v@.map_values(|p: (String, String)| (p.0@, p.1@)),
            ),
            None => yaml_pairs_of(data@) is None,
        },
{
    let doc: serde_yaml::Value = serde_yaml::from_str(data).ok()?;
    let map = doc.as_mapping()?;
    let mut out: Vec<(String, String)> = Vec::new();
    for (key, value) in map {
        let k = key.as_str()?.to_string();
        let v = match value {
            serde_yaml::Value::String(text) => text.clone(),
            serde_yaml::Value::Number(number) => number.to_string(),
            serde_yaml::Value::Bool(flag) => flag.to_string(),
            _ => return None,
        };
        out.push((k, v));
    }
    Some(out)
}

/// A batch of key/value pairs folded front to back: overwriting when
/// `cover` is set, first write winning otherwise.
pub open spec fn spec_apply_kv_pairs(
    entries: Seq<VarEntry>,
    pairs: Seq<VarEntry>,
    cover: bool,
) -> Seq<VarEntry>
    decreases pairs.len(),
{
    if pairs.len() == 0 {
        entries
    } else {
        let next = if cover {
            spec_insert_entry(entries, pairs[0].0, pairs[0].1)
        } else if entries_contain_key(entries, pairs[0].0) {
            entries
        } else {
            entries.push(pairs[0])
        };
        spec_apply_kv_pairs(next, pairs.skip(1), cover)
    }
}

/// Load a YAML variable source: the top-level mapping's scalar entries
/// go into the map in document order, first write winning when
/// `cover` is unset.  A document that is no mapping of scalars is a
/// domain error and changes nothing.
pub fn load_yaml(container: &mut Vars, data: &str, cover: bool) -> (r: Result<(), SoftError>)
    requires
        old(container).wf(),
    ensures
        final(container).wf(),
        match yaml_pairs_of(data@) {
            Some(pairs) => r is Ok && final(container).entries() == spec_apply_kv_pairs(
                old(container).entries(),
                pairs,
                cover,
            ),
            None => (r matches Err(SoftError::AppError(m)) && m@
                == "a YAML variable source must be a mapping of scalar values"@)
                && final(container).entries() == old(container).entries(),
        },
{
    match parse_yaml_pairs(data) {
        None => Err(
            SoftError::AppError(
                String::from_str("a YAML variable source must be a mapping of scalar values"),
            ),
        ),
        Some(pairs) => {
            let ghost pairseq = pairs@.map_values(|p: (String, String)| (p.0@, p.1@));
            let n = pairs.len();
            let mut i: usize = 0;
            proof {
                assert(pairseq.skip(0) =~= pairseq);
            }
            while i < n
                invariant
                    n == pairs@.len(),
                    pairseq == pairs@.map_values(|p: (String, String)| (p.0@, p.1@)),
                    i <= n,
                    container.wf(),
                    spec_apply_kv_pairs(old(container).entries(), pairseq, cover)
                        == spec_apply_kv_pairs(
                        container.entries(),
                        pairseq.skip(i as int),
                        cover,
                    ),
                decreases n - i,
            {
                proof {
                    assert(pairseq.skip(i as int)[0] == pairseq[i as int]);
                    assert(pairseq[i as int] == (pairs@[i as int].0@, pairs@[i as int].1@));
                    assert(pairseq.skip(i as int).skip(1) =~= pairseq.skip(i + 1 as int));
                }
                let key = pairs[i].0.clone();
                let value = pairs[i].1.clone();
                if cover {
                    container.insert(key, value);
                } else {
                    container.insert_if_absent(key, value);
                }
                i = i + 1;
            }
            proof {
                assert(pairseq.skip(i as int) =~= Seq::<VarEntry>::empty());
            }
            Ok(())
        },
    }
}

/// Loading remote variable sources is not implemented: the caller logs
/// the failure as a warning and goes on.
pub fn load_form_remote(_container: &mut Vars, _config_path: &str, _cover: bool) -> (r: Result<
    (),
    SoftError,
>)
    ensures
        r matches Err(SoftError::AppError(m)) && m@
            == "loading remote variable sources is not implemented"@,
        final(_container).entries() == old(_container).entries(),
{
    Err(SoftError::AppError(String::from_str("loading remote variable sources is not implemented")))
}

// ---------------------------------------------------------------------
// Building the variable map.
// ---------------------------------------------------------------------

/// A key wrapped for textual substitution: `{{key}}`.
pub open spec fn spec_wrap_key(k: Seq<char>) -> Seq<char> {
    "{{"@ + k + "}}"@
}

/// The attach map with every key wrapped.
pub open spec fn spec_attrs(attach: Seq<VarEntry>) -> Seq<VarEntry> {
    attach.map_values(|p: VarEntry| (spec_wrap_key(p.0), p.1))
}

pub open spec fn spec_starts_with(s: Seq<char>, pre: Seq<char>) -> bool {
    s.len() >= pre.len() && s.subrange(0, pre.len() as int) == pre
}

pub open spec fn spec_ends_with(s: Seq<char>, suf: Seq<char>) -> bool {
    s.len() >= suf.len() && s.skip(s.len() - suf.len()) == suf
}

/// One variable source folded into the entries.  Remote sources and
/// YAML files are not implemented and change nothing; a missing file
/// changes nothing; a properties file is folded line by line, first
/// write winning.
pub open spec fn spec_source_step(
    entries: Seq<VarEntry>,
    path: Seq<char>,
    content: Option<Seq<char>>,
) -> Seq<VarEntry> {
    if spec_starts_with(path, "http://"@) || spec_starts_with(path, "https://"@) {
        entries
    } else {
        let p = spec_trim(crate::utils::string::spec_replace_all(
            path,
            "file://"@,
            Seq::<char>::empty(),
        ));
        match content {
            None => entries,
            Some(data) => if spec_ends_with(p, ".yaml"@) || spec_ends_with(p, ".yml"@) {
                match yaml_pairs_of(data) {
                    Some(pairs) => spec_apply_kv_pairs(entries, pairs, false),
                    None => entries,
                }
            } else if spec_ends_with(p, ".properties"@) || spec_ends_with(p, ".env"@) {
                spec_apply_prop_lines(entries, spec_lines(data), false)
            } else {
                entries
            },
        }
    }
}

/// Every variable source folded in order.
pub open spec fn spec_sources_fold(
    entries: Seq<VarEntry>,
    paths: Seq<Seq<char>>,
    contents: Seq<Option<Seq<char>>>,
) -> Seq<VarEntry>
    decreases paths.len(),
{
    if paths.len() == 0 {
        entries
    } else {
        spec_sources_fold(
            spec_source_step(
                entries,
                paths[0],
                if contents.len() > 0 {
                    contents[0]
                } else {
                    None
                },
            ),
            paths.skip(1),
            contents.skip(1),
        )
    }
}

/// Overlay a batch of entries, inserting each in order; a later entry
/// with the same key wins.
pub open spec fn spec_overlay(entries: Seq<VarEntry>, batch: Seq<VarEntry>) -> Seq<VarEntry>
    decreases batch.len(),
{
    if batch.len() == 0 {
        entries
    } else {
        spec_overlay(spec_insert_entry(entries, batch[0].0, batch[0].1), batch.skip(1))
    }
}

/// Insert a prefixed copy of every entry of `snapshot`.
pub open spec fn spec_prefix_copies(
    entries: Seq<VarEntry>,
    snapshot: Seq<VarEntry>,
    prefix: Seq<char>,
) -> Seq<VarEntry>
    decreases snapshot.len(),
{
    if snapshot.len() == 0 {
        entries
    } else {
        spec_prefix_copies(
            spec_insert_entry(entries, prefix + snapshot[0].0, snapshot[0].1),
            snapshot.skip(1),
            prefix,
        )
    }
}

/// The first alias expression that fully expands.
pub open spec fn spec_alias_value(exprs: Seq<Seq<char>>, entries: Seq<VarEntry>) -> Option<
    Seq<char>,
>
    decreases exprs.len(),
{
    if exprs.len() == 0 {
        None
    } else {
        match spec_expand(exprs[0], entries) {
            Some(v) => Some(v),
            None => spec_alias_value(exprs.skip(1), entries),
        }
    }
}

/// One alias rule folded into the entries: a resolution fills the key
/// when the rule overwrites or the key is missing.
pub open spec fn spec_alias_step(entries: Seq<VarEntry>, alias: ProjectConfigAlias) -> Seq<
    VarEntry,
> {
    match spec_alias_value(alias.expr@.map_values(|e: String| e@), entries) {
        Some(v) => if alias.over || !entries_contain_key(entries, alias.key@) {
            spec_insert_entry(entries, alias.key@, v)
        } else {
            entries
        },
        None => entries,
    }
}

/// Every alias rule folded in order, each seeing the effect of the
/// previous ones.
pub open spec fn spec_aliases_fold(entries: Seq<VarEntry>, aliases: Seq<ProjectConfigAlias>)
    -> Seq<VarEntry>
    decreases aliases.len(),
{
    if aliases.len() == 0 {
        entries
    } else {
        spec_aliases_fold(spec_alias_step(entries, aliases[0]), aliases.skip(1))
    }
}

/// The textual pass that substitutes every wrapped attach token
/// inside every value, each substitution run to its fixed point.
pub open spec fn spec_attrs_pass(entries: Seq<VarEntry>, attrs: Seq<VarEntry>) -> Seq<VarEntry> {
    entries.map_values(
        |p: VarEntry| (p.0, crate::utils::string::spec_replace_pairs_fix(p.1, attrs)),
    )
}

/// The variable map before the alias rules: the sources, the `var.`
/// copies, the environment overlay and the `env.` copies.
pub open spec fn spec_vars_before_aliases(
    paths: Seq<Seq<char>>,
    contents: Seq<Option<Seq<char>>>,
    env: Seq<VarEntry>,
) -> Seq<VarEntry> {
    let from_sources = spec_sources_fold(Seq::empty(), paths, contents);
    let with_var_ns = spec_prefix_copies(from_sources, from_sources, "var."@);
    let with_env = spec_overlay(with_var_ns, env);
    spec_prefix_copies(with_env, env, "env."@)
}

/// The whole variable map, from the sources through the alias rules to
/// the attach-token pass.
pub open spec fn spec_build_vars(
    paths: Seq<Seq<char>>,
    contents: Seq<Option<Seq<char>>>,
    env: Seq<VarEntry>,
    aliases: Seq<ProjectConfigAlias>,
    attrs: Seq<VarEntry>,
) -> Seq<VarEntry> {
    let with_env_ns = spec_vars_before_aliases(paths, contents, env);
    let with_aliases = spec_aliases_fold(with_env_ns, aliases);
    spec_attrs_pass(with_aliases, attrs)
}

/// Every expression of the alias expands with terminating
/// substitutions against `entries`.
pub open spec fn spec_alias_exprs_terminate(al: ProjectConfigAlias, entries: Seq<VarEntry>)
    -> bool {
    forall|i: int|
        0 <= i < al.expr@.len() ==> crate::utils::string::spec_expansion_terminates(
            (#[trigger] al.expr@[i])@,
            entries,
        )
}

/// Each alias rule's expressions terminate against the entries the
/// earlier rules produce.
pub open spec fn spec_aliases_terminate(entries: Seq<VarEntry>, aliases: Seq<ProjectConfigAlias>)
    -> bool
    decreases aliases.len(),
{
    aliases.len() == 0 || (spec_alias_exprs_terminate(aliases[0], entries)
        && spec_aliases_terminate(spec_alias_step(entries, aliases[0]), aliases.skip(1)))
}

/// Every value's attach-token substitutions terminate.
pub open spec fn spec_attrs_pass_terminates(entries: Seq<VarEntry>, attrs: Seq<VarEntry>)
    -> bool {
    forall|i: int|
        0 <= i < entries.len() ==> crate::utils::string::spec_pairs_terminate(
            (#[trigger] entries[i]).1,
            attrs,
        )
}

/// All substitutions of the variable-map build terminate: the alias
/// expansions and the attach-token pass.
pub open spec fn spec_build_vars_terminates(
    paths: Seq<Seq<char>>,
    contents: Seq<Option<Seq<char>>>,
    env: Seq<VarEntry>,
    aliases: Seq<ProjectConfigAlias>,
    attrs: Seq<VarEntry>,
) -> bool {
    let with_env_ns = spec_vars_before_aliases(paths, contents, env);
    &&& spec_aliases_terminate(with_env_ns, aliases)
    &&& spec_attrs_pass_terminates(spec_aliases_fold(with_env_ns, aliases), attrs)
}

/// Every expression of the argument specification expands with
/// terminating substitutions against `entries`.
pub open spec fn spec_arg_exprs_terminate(a: ProjectArgs, entries: Seq<VarEntry>) -> bool {
    forall|i: int|
        0 <= i < a.expr@.len() ==> crate::utils::string::spec_expansion_terminates(
            (#[trigger] a.expr@[i])@,
            entries,
        )
}

/// Every expression of every argument specification terminates.
pub open spec fn spec_args_exprs_terminate(specs: Seq<ProjectArgs>, entries: Seq<VarEntry>)
    -> bool {
    forall|i: int| 0 <= i < specs.len() ==> spec_arg_exprs_terminate(#[trigger] specs[i], entries)
}

/// `s` starts with `pre`.
fn has_prefix(s: &Vec<char>, pre: &str) -> (r: bool)
    ensures
        r == spec_starts_with(s@, pre@),
{
    let p = str_to_chars(pre);
    if p.len() > s.len() {
        return false;
    }
    crate::utils::string::chars_match_at(s, &p, 0)
}

/// `s` ends with `suf`.
fn has_suffix(s: &Vec<char>, suf: &str) -> (r: bool)
    ensures
        r == spec_ends_with(s@, suf@),
{
    let p = str_to_chars(suf);
    if p.len() > s.len() {
        return false;
    }
    let at = s.len() - p.len();
    let r = crate::utils::string::chars_match_at(s, &p, at);
    proof {
        assert(s@.subrange(at as int, at + p@.len() as int) =~= s@.skip(s@.len() - suf@.len()));
    }
    r
}

/// `{{` + key + `}}`.
fn wrap_key(k: &str) -> (r: String)
    ensures
        r@ == spec_wrap_key(k@),
{
    String::from_str("{{").concat(k).concat("}}")
}

/// The wrapped attach pairs for textual substitution.
pub fn build_attrs(attach: &Vars) -> (r: Vec<(String, String)>)
    ensures
        r@.map_values(|p: (String, String)| (p.0@, p.1@)) == spec_attrs(attach.entries()),
{
    let n = attach.len();
    let mut r: Vec<(String, String)> = Vec::new();
    let mut i: usize = 0;
    while i < n
        invariant
            n == attach.entries().len(),
            i <= n,
            r@.map_values(|p: (String, String)| (p.0@, p.1@)) =~= spec_attrs(
                attach.entries(),
            ).subrange(0, i as int),
        decreases n - i,
    {
        let ghost pre = r@;
        let pair = attach.pair_at(i);
        let wrapped = wrap_key(pair.0.as_str());
        let value = pair.1.clone();
        r.push((wrapped, value));
        proof {
            assert(spec_attrs(attach.entries())[i as int] == (spec_wrap_key(
                attach.entries()[i as int].0,
            ), attach.entries()[i as int].1));
            assert(r@.map_values(|p: (String, String)| (p.0@, p.1@)) =~= pre.map_values(
                |p: (String, String)| (p.0@, p.1@),
            ).push(spec_attrs(attach.entries())[i as int]));
            assert(pre.map_values(|p: (String, String)| (p.0@, p.1@)).push(
                spec_attrs(attach.entries())[i as int],
            ) =~= spec_attrs(attach.entries()).subrange(0, i + 1 as int));
        }
        i = i + 1;
    }
    proof {
        assert(spec_attrs(attach.entries()).subrange(0, n as int) =~= spec_attrs(
            attach.entries(),
        ));
    }
    r
}

/// Assemble the variable map: load each source (first write wins),
/// copy every file-origin key into the `var.` namespace, overlay the
/// process environment and copy it into the `env.` namespace, fold the
/// alias rules, and finally replace the attach tokens inside every
/// value.
pub fn build_vars(
    config: &ProjectConfig,
    env_vars: &Vars,
    sources: &Vec<Option<String>>,
    logger: &Logger,
) -> (r: Vars)
    requires
        sources@.len() == config.path@.len(),
        env_vars.wf(),
        config.attach.wf(),
        spec_build_vars_terminates(
            config.path@.map_values(|p: String| p@),
            sources@.map_values(
                |c: Option<String>|
                    match c {
                        Some(s) => Some(s@),
                        None => None,
                    },
            ),
            env_vars.entries(),
            config.config_alias@,
            spec_attrs(config.attach.entries()),
        ),
    ensures
        r.wf(),
        r.entries() == spec_build_vars(
            config.path@.map_values(|p: String| p@),
            sources@.map_values(
                |c: Option<String>|
                    match c {
                        Some(s) => Some(s@),
                        None => None,
                    },
            ),
            env_vars.entries(),
            config.config_alias@,
            spec_attrs(config.attach.entries()),
        ),
{
    let ghost pathseq = config.path@.map_values(|p: String| p@);
    let ghost contentseq = sources@.map_values(
        |c: Option<String>|
            match c {
                Some(s) => Some(s@),
                None => None,
            },
    );
    let mut vars = Vars::new();

    // the sources, in order, first write winning
    let n = config.path.len();
    let mut i: usize = 0;
    proof {
        assert(pathseq.skip(0) =~= pathseq);
        assert(contentseq.skip(0) =~= contentseq);
    }
    while i < n
        invariant
            n == config.path@.len(),
            sources@.len() == n,
            pathseq == config.path@.map_values(|p: String| p@),
            contentseq == sources@.map_values(
                |c: Option<String>|
                    match c {
                        Some(s) => Some(s@),
                        None => None,
                    },
            ),
            i <= n,
            vars.wf(),
            spec_sources_fold(Seq::empty(), pathseq, contentseq) == spec_sources_fold(
                vars.entries(),
                pathseq.skip(i as int),
                contentseq.skip(i as int),
            ),
        decreases n - i,
    {
        let ghost pre_src = vars.entries();
        proof {
            assert(pathseq.skip(i as int)[0] == pathseq[i as int]);
            assert(pathseq[i as int] == config.path@[i as int]@);
            assert(contentseq.skip(i as int)[0] == contentseq[i as int]);
            assert(contentseq[i as int] == (match sources@[i as int] {
                Some(s) => Some(s@),
                None => None,
            }));
            assert(pathseq.skip(i as int).skip(1) =~= pathseq.skip(i + 1 as int));
            assert(contentseq.skip(i as int).skip(1) =~= contentseq.skip(i + 1 as int));
        }
        let path = &config.path[i];
        let path_chars = str_to_chars(path.as_str());
        if has_prefix(&path_chars, "http://") || has_prefix(&path_chars, "https://") {
            warn(
                logger,
                String::from_str("cannot load a remote variable source, skipped: ").concat(
                    path.as_str(),
                ),
            );
        } else {
            // the scheme prefix is stripped with a plain one-pass
            // replace, as a substring erasure
            let pchars = str_to_chars(path.as_str());
            let scheme = str_to_chars("file://");
            let nothing = str_to_chars("");
            let stripped_chars = crate::utils::string::replace_chars(&pchars, &scheme, &nothing);
            proof {
                reveal_strlit("");
                assert(""@ =~= Seq::<char>::empty());
            }
            let trimmed = trim_chars(&stripped_chars);
            match &sources[i] {
                None => {
                    warn(
                        logger,
                        String::from_str("a variable source cannot be read, skipped: ").concat(
                            path.as_str(),
                        ),
                    );
                },
                Some(data) => {
                    if has_suffix(&trimmed, ".yaml") || has_suffix(&trimmed, ".yml") {
                        if load_yaml(&mut vars, data.as_str(), false).is_err() {
                            warn(
                                logger,
                                String::from_str("a YAML variable source cannot be read, skipped: ")
                                    .concat(path.as_str()),
                            );
                        }
                    } else if has_suffix(&trimmed, ".properties") || has_suffix(&trimmed, ".env") {
                        let _ = load_properties(&mut vars, data.as_str(), false);
                    } else {
                        warn(
                            logger,
                            String::from_str("a variable source of unknown type, skipped: ")
                                .concat(path.as_str()),
                        );
                    }
                },
            }
        }
        proof {
            assert(vars.entries() == spec_source_step(pre_src, pathseq[i as int],
            contentseq[i as int]));
        }
        i = i + 1;
    }
    proof {
        assert(pathseq.skip(i as int) =~= Seq::<Seq<char>>::empty());
    }
    let ghost from_sources = vars.entries();

    // the var. namespace
    let snapshot = vars.duplicate();
    let m = snapshot.len();
    let mut i: usize = 0;
    proof {
        assert(snapshot.entries().skip(0) =~= snapshot.entries());
    }
    while i < m
        invariant
            m == snapshot.entries().len(),
            i <= m,
            vars.wf(),
            spec_prefix_copies(from_sources, snapshot.entries(), "var."@) == spec_prefix_copies(
                vars.entries(),
                snapshot.entries().skip(i as int),
                "var."@,
            ),
        decreases m - i,
    {
        proof {
            assert(snapshot.entries().skip(i as int)[0] == snapshot.entries()[i as int]);
            assert(snapshot.entries().skip(i as int).skip(1) =~= snapshot.entries().skip(
                i + 1 as int,
            ));
        }
        let pair = snapshot.pair_at(i);
        let key = String::from_str("var.").concat(pair.0.as_str());
        vars.insert(key, pair.1.clone());
        i = i + 1;
    }
    proof {
        assert(snapshot.entries().skip(i as int) =~= Seq::<VarEntry>::empty());
    }
    let ghost with_var_ns = vars.entries();

    // the environment wins over the files
    let em = env_vars.len();
    let mut i: usize = 0;
    proof {
        assert(env_vars.entries().skip(0) =~= env_vars.entries());
    }
    while i < em
        invariant
            em == env_vars.entries().len(),
            i <= em,
            vars.wf(),
            spec_overlay(with_var_ns, env_vars.entries()) == spec_overlay(
                vars.entries(),
                env_vars.entries().skip(i as int),
            ),
        decreases em - i,
    {
        proof {
            assert(env_vars.entries().skip(i as int)[0] == env_vars.entries()[i as int]);
            assert(env_vars.entries().skip(i as int).skip(1) =~= env_vars.entries().skip(
                i + 1 as int,
            ));
        }
        let pair = env_vars.pair_at(i);
        vars.insert(pair.0.clone(), pair.1.clone());
        i = i + 1;
    }
    proof {
        assert(env_vars.entries().skip(i as int) =~= Seq::<VarEntry>::empty());
    }
    let ghost with_env = vars.entries();

    // the env. namespace
    let mut i: usize = 0;
    proof {
        assert(env_vars.entries().skip(0) =~= env_vars.entries());
    }
    while i < em
        invariant
            em == env_vars.entries().len(),
            i <= em,
            vars.wf(),
            spec_prefix_copies(with_env, env_vars.entries(), "env."@) == spec_prefix_copies(
                vars.entries(),
                env_vars.entries().skip(i as int),
                "env."@,
            ),
        decreases em - i,
    {
        proof {
            assert(env_vars.entries().skip(i as int)[0] == env_vars.entries()[i as int]);
            assert(env_vars.entries().skip(i as int).skip(1) =~= env_vars.entries().skip(
                i + 1 as int,
            ));
        }
        let pair = env_vars.pair_at(i);
        let key = String::from_str("env.").concat(pair.0.as_str());
        vars.insert(key, pair.1.clone());
        i = i + 1;
    }
    proof {
        assert(env_vars.entries().skip(i as int) =~= Seq::<VarEntry>::empty());
    }
    let ghost with_env_ns = vars.entries();

    // the alias rules
    let am = config.config_alias.len();
    let mut i: usize = 0;
    proof {
        assert(config.config_alias@.skip(0) =~= config.config_alias@);
    }
    while i < am
        invariant
            am == config.config_alias@.len(),
            i <= am,
            vars.wf(),
            spec_aliases_terminate(vars.entries(), config.config_alias@.skip(i as int)),
            spec_aliases_fold(with_env_ns, config.config_alias@) == spec_aliases_fold(
                vars.entries(),
                config.config_alias@.skip(i as int),
            ),
        decreases am - i,
    {
        proof {
            assert(config.config_alias@.skip(i as int)[0] == config.config_alias@[i as int]);
            assert(config.config_alias@.skip(i as int).skip(1) =~= config.config_alias@.skip(
                i + 1 as int,
            ));
        }
        let alias = &config.config_alias[i];
        let ghost pre_entries = vars.entries();
        let ghost exprseq = alias.expr@.map_values(|e: String| e@);
        let en = alias.expr.len();
        let mut j: usize = 0;
        let mut found: Option<String> = None;
        proof {
            assert(exprseq.skip(0) =~= exprseq);
        }
        while j < en && found.is_none()
            invariant
                en == alias.expr@.len(),
                exprseq == alias.expr@.map_values(|e: String| e@),
                pre_entries == vars.entries(),
                spec_alias_exprs_terminate(*alias, vars.entries()),
                j <= en,
                match found {
                    Some(v) => spec_alias_value(exprseq, vars.entries()) == Some(v@),
                    None => spec_alias_value(exprseq, vars.entries()) == spec_alias_value(
                        exprseq.skip(j as int),
                        vars.entries(),
                    ),
                },
            decreases en - j,
        {
            proof {
                assert(exprseq.skip(j as int)[0] == exprseq[j as int]);
                assert(exprseq[j as int] == alias.expr@[j as int]@);
                assert(exprseq.skip(j as int).skip(1) =~= exprseq.skip(j + 1 as int));
            }
            match get_value_from_exp(alias.expr[j].as_str(), &vars) {
                Some(v) => {
                    found = Some(v);
                },
                None => {
                },
            }
            j = j + 1;
        }
        proof {
            if found is None {
                assert(exprseq.skip(j as int) =~= Seq::<Seq<char>>::empty());
            }
        }
        match found {
            Some(v) => {
                if alias.over || !vars.contains_key(&alias.key) {
                    vars.insert(alias.key.clone(), v);
                    proof {
                        assert(vars.entries() == spec_alias_step(pre_entries, *alias));
                    }
                } else {
                    crate::utils::log::debug(
                        logger,
                        String::from_str("an alias key is already filled, kept: ").concat(
                            alias.key.as_str(),
                        ),
                    );
                    proof {
                        assert(vars.entries() == spec_alias_step(pre_entries, *alias));
                    }
                }
            },
            None => {
                warn(
                    logger,
                    String::from_str("an alias cannot be composed, skipped: ").concat(
                        alias.key.as_str(),
                    ),
                );
                proof {
                    assert(vars.entries() == spec_alias_step(pre_entries, *alias));
                }
            },
        }
        i = i + 1;
    }
    proof {
        assert(config.config_alias@.skip(i as int) =~= Seq::<ProjectConfigAlias>::empty());
    }
    let ghost with_aliases = vars.entries();

    // the attach tokens inside every value
    let attrs = build_attrs(&config.attach);
    let ghost attrseq = spec_attrs(config.attach.entries());
    let vm = vars.len();
    let mut i: usize = 0;
    while i < vm
        invariant
            vm == vars.entries().len(),
            vars.entries().len() == with_aliases.len(),
            attrs@.map_values(|p: (String, String)| (p.0@, p.1@)) == attrseq,
            i <= vm,
            vars.wf(),
            forall|j: int|
                0 <= j < i ==> vars.entries()[j] == (with_aliases[j].0,
                crate::utils::string::spec_replace_pairs_fix(with_aliases[j].1, attrseq)),
            forall|j: int| i <= j < vm ==> vars.entries()[j] == with_aliases[j],
            spec_attrs_pass_terminates(with_aliases, attrseq),
        decreases vm - i,
    {
        let pair = vars.pair_at(i);
        let mut value = pair.1.clone();
        proof {
            assert(vars.entries()[i as int] == with_aliases[i as int]);
            assert(crate::utils::string::spec_pairs_terminate(value@, attrseq));
        }
        crate::utils::string::replace_all_str(&mut value, &attrs);
        vars.set_value_at(i, value);
        i = i + 1;
    }
    proof {
        assert(vars.entries() =~= spec_attrs_pass(with_aliases, attrseq));
    }
    vars
}

// ---------------------------------------------------------------------
// Collecting and splitting the accepted arguments.
// ---------------------------------------------------------------------

/// An accepted argument as the specifications see it: key, value and
/// mode.
pub type AcceptedArg = (Seq<char>, Seq<char>, SourceKeyMode);

/// Validate every argument specification in order: the accepted ones,
/// or `None` when a regex does not compile or a mandatory argument
/// stays empty.
pub open spec fn spec_collect_args(specs: Seq<ProjectArgs>, entries: Seq<VarEntry>) -> Option<
    Seq<AcceptedArg>,
>
    decreases specs.len(),
{
    if specs.len() == 0 {
        Some(Seq::empty())
    } else {
        let a = specs[0];
        let pat = spec_trim(a.valid_regex@);
        if !regex_ok(pat) {
            None
        } else {
            match spec_accepted_value(a.expr@.map_values(|e: String| e@), pat, entries) {
                Some(v) => match spec_collect_args(specs.skip(1), entries) {
                    Some(rest) => Some(seq![(a.key@, v, a.mode)] + rest),
                    None => None,
                },
                None => if a.must {
                    None
                } else {
                    spec_collect_args(specs.skip(1), entries)
                },
            }
        }
    }
}

/// The command line the accepted arguments produce, in order.
pub open spec fn spec_argv(acc: Seq<AcceptedArg>) -> Seq<Seq<char>>
    decreases acc.len(),
{
    if acc.len() == 0 {
        Seq::empty()
    } else {
        let head = match acc[0].2 {
            SourceKeyMode::ARG(sub) => match sub {
                crate::config::prop::SourceKeyArgMode::BOOL => seq![acc[0].0],
                crate::config::prop::SourceKeyArgMode::MERGE => seq![acc[0].0 + "="@ + acc[0].1],
                crate::config::prop::SourceKeyArgMode::DEFAULT => seq![acc[0].0, acc[0].1],
            },
            SourceKeyMode::ENV => Seq::empty(),
        };
        head + spec_argv(acc.skip(1))
    }
}

/// The child environment: the process environment with every
/// environment-mode argument inserted.
pub open spec fn spec_env_out(env0: Seq<VarEntry>, acc: Seq<AcceptedArg>) -> Seq<VarEntry>
    decreases acc.len(),
{
    if acc.len() == 0 {
        env0
    } else {
        spec_env_out(
            match acc[0].2 {
                SourceKeyMode::ENV => spec_insert_entry(env0, acc[0].0, acc[0].1),
                _ => env0,
            },
            acc.skip(1),
        )
    }
}

/// The wrapped copies of the accepted arguments.
pub open spec fn spec_wrap_args(acc: Seq<AcceptedArg>) -> Seq<VarEntry> {
    acc.map_values(|t: AcceptedArg| (spec_wrap_key(t.0), t.1))
}

/// The wrapped copies of the variable map.
pub open spec fn spec_wrap_vars(entries: Seq<VarEntry>) -> Seq<VarEntry> {
    entries.map_values(|p: VarEntry| (spec_wrap_key(p.0), p.1))
}

/// The map handed to the hook scripts: the wrapped attach pairs, then
/// the wrapped accepted arguments, then the wrapped variable map, each
/// later insert winning.
pub open spec fn spec_script_vars(
    attrs: Seq<VarEntry>,
    acc: Seq<AcceptedArg>,
    vb: Seq<VarEntry>,
) -> Seq<VarEntry> {
    spec_overlay(spec_overlay(spec_overlay(Seq::empty(), attrs), spec_wrap_args(acc)),
    spec_wrap_vars(vb))
}

/// Build the binary context: assemble the variable map, validate every
/// argument specification, and split the accepted arguments into the
/// command line, the child environment and the script-substitution
/// map.
pub fn load_context(
    config: &ProjectConfig,
    env_vars: &Vars,
    sources: &Vec<Option<String>>,
    logger: &Logger,
) -> (r: Result<BinaryContext, SoftError>)
    requires
        sources@.len() == config.path@.len(),
        env_vars.wf(),
        config.attach.wf(),
        spec_build_vars_terminates(
            config.path@.map_values(|p: String| p@),
            sources@.map_values(
                |c: Option<String>|
                    match c {
                        Some(s) => Some(s@),
                        None => None,
                    },
            ),
            env_vars.entries(),
            config.config_alias@,
            spec_attrs(config.attach.entries()),
        ),
        spec_args_exprs_terminate(
            config.args@,
            spec_build_vars(
                config.path@.map_values(|p: String| p@),
                sources@.map_values(
                    |c: Option<String>|
                        match c {
                            Some(s) => Some(s@),
                            None => None,
                        },
                ),
                env_vars.entries(),
                config.config_alias@,
                spec_attrs(config.attach.entries()),
            ),
        ),
    ensures
        ({
            let vb = spec_build_vars(
                config.path@.map_values(|p: String| p@),
                sources@.map_values(
                    |c: Option<String>|
                        match c {
                            Some(s) => Some(s@),
                            None => None,
                        },
                ),
                env_vars.entries(),
                config.config_alias@,
                spec_attrs(config.attach.entries()),
            );
            let coll = spec_collect_args(config.args@, vb);
            match r {
                Ok(ctx) => coll is Some && ctx.args@.map_values(|s: String| s@) == spec_argv(
                    coll->Some_0,
                ) && ctx.envs.wf() && ctx.envs.entries() == spec_env_out(
                    env_vars.entries(),
                    coll->Some_0,
                ) && ctx.script_vars.wf() && ctx.script_vars.entries() == spec_script_vars(
                    spec_attrs(config.attach.entries()),
                    coll->Some_0,
                    vb,
                ),
                Err(e) => (e is AppError) && coll is None,
            }
        }),
{
    let vars = build_vars(config, env_vars, sources, logger);
    let ghost vb = vars.entries();

    // validate each specification in order
    let ghost specseq = config.args@;
    let n = config.args.len();
    let mut accepted: Vec<BinaryArg> = Vec::new();
    let mut i: usize = 0;
    proof {
        assert(specseq.skip(0) =~= specseq);
        assert(accepted@.map_values(|b: BinaryArg| (b.key@, b.value@, b.mode))
            =~= Seq::<AcceptedArg>::empty());
    }
    while i < n
        invariant
            n == config.args@.len(),
            specseq == config.args@,
            vb == vars.entries(),
            vb == spec_build_vars(
                config.path@.map_values(|p: String| p@),
                sources@.map_values(
                    |c: Option<String>|
                        match c {
                            Some(s) => Some(s@),
                            None => None,
                        },
                ),
                env_vars.entries(),
                config.config_alias@,
                spec_attrs(config.attach.entries()),
            ),
            spec_args_exprs_terminate(specseq, vb),
            i <= n,
            match spec_collect_args(specseq.skip(i as int), vb) {
                Some(rest) => spec_collect_args(specseq, vb) == Some(
                    accepted@.map_values(|b: BinaryArg| (b.key@, b.value@, b.mode)) + rest,
                ),
                None => spec_collect_args(specseq, vb) is None,
            },
        decreases n - i,
    {
        let ghost pre = accepted@;
        proof {
            assert(specseq.skip(i as int)[0] == specseq[i as int]);
            assert(specseq.skip(i as int).skip(1) =~= specseq.skip(i + 1 as int));
        }
        match get_then_check_arg(&config.args[i], &vars, logger) {
            Err(e) => {
                proof {
                    assert(spec_collect_args(specseq.skip(i as int), vb) is None);
                }
                return Err(e);
            },
            Ok(Some(b)) => {
                let ghost trip = (b.key@, b.value@, b.mode);
                accepted.push(b);
                proof {
                    assert(accepted@.map_values(|x: BinaryArg| (x.key@, x.value@, x.mode))
                        =~= pre.map_values(|x: BinaryArg| (x.key@, x.value@, x.mode)).push(trip));
                    assert forall|rest: Seq<AcceptedArg>| true implies pre.map_values(
                        |x: BinaryArg| (x.key@, x.value@, x.mode),
                    ) + (seq![trip] + rest) =~= pre.map_values(
                        |x: BinaryArg| (x.key@, x.value@, x.mode),
                    ).push(trip) + rest by {}
                }
            },
            Ok(None) => {
            },
        }
        i = i + 1;
    }
    proof {
        assert(specseq.skip(i as int) =~= Seq::<ProjectArgs>::empty());
        assert(accepted@.map_values(|b: BinaryArg| (b.key@, b.value@, b.mode))
            + Seq::<AcceptedArg>::empty() =~= accepted@.map_values(
            |b: BinaryArg| (b.key@, b.value@, b.mode),
        ));
    }
    let ghost accseq = accepted@.map_values(|b: BinaryArg| (b.key@, b.value@, b.mode));

    // split into the command line and the child environment
    let mut out_args: Vec<String> = Vec::new();
    let mut out_envs = env_vars.duplicate();
    let ghost env0 = env_vars.entries();
    let m = accepted.len();
    let mut i: usize = 0;
    proof {
        assert(accseq.skip(0) =~= accseq);
        assert(out_args@.map_values(|s: String| s@) =~= Seq::<Seq<char>>::empty());
        assert(out_args@.map_values(|s: String| s@) + spec_argv(accseq) =~= spec_argv(accseq));
    }
    while i < m
        invariant
            m == accepted@.len(),
            accseq == accepted@.map_values(|b: BinaryArg| (b.key@, b.value@, b.mode)),
            i <= m,
            out_envs.wf(),
            spec_argv(accseq) == out_args@.map_values(|s: String| s@) + spec_argv(
                accseq.skip(i as int),
            ),
            spec_env_out(env0, accseq) == spec_env_out(
                out_envs.entries(),
                accseq.skip(i as int),
            ),
        decreases m - i,
    {
        let ghost pre_args = out_args@;
        let ghost tail = accseq.skip(i as int);
        proof {
            assert(tail[0] == accseq[i as int]);
            assert(accseq[i as int] == (accepted@[i as int].key@, accepted@[i as int].value@,
            accepted@[i as int].mode));
            assert(tail.skip(1) =~= accseq.skip(i + 1 as int));
        }
        let b = &accepted[i];
        match b.mode {
            SourceKeyMode::ARG(sub) => {
                match sub {
                    crate::config::prop::SourceKeyArgMode::BOOL => {
                        out_args.push(b.key.clone());
                        proof {
                            assert(out_args@.map_values(|s: String| s@) =~= pre_args.map_values(
                                |s: String| s@,
                            ).push(accseq[i as int].0));
                            assert(pre_args.map_values(|s: String| s@).push(accseq[i as int].0)
                                + spec_argv(tail.skip(1)) =~= pre_args.map_values(|s: String| s@)
                                + (seq![accseq[i as int].0] + spec_argv(tail.skip(1))));
                        }
                    },
                    crate::config::prop::SourceKeyArgMode::MERGE => {
                        let merged = b.key.clone().concat("=").concat(b.value.as_str());
                        out_args.push(merged);
                        proof {
                            assert(out_args@.map_values(|s: String| s@) =~= pre_args.map_values(
                                |s: String| s@,
                            ).push(accseq[i as int].0 + "="@ + accseq[i as int].1));
                            assert(pre_args.map_values(|s: String| s@).push(
                                accseq[i as int].0 + "="@ + accseq[i as int].1,
                            ) + spec_argv(tail.skip(1)) =~= pre_args.map_values(|s: String| s@) + (
                            seq![accseq[i as int].0 + "="@ + accseq[i as int].1] + spec_argv(
                                tail.skip(1),
                            )));
                        }
                    },
                    crate::config::prop::SourceKeyArgMode::DEFAULT => {
                        out_args.push(b.key.clone());
                        out_args.push(b.value.clone());
                        proof {
                            assert(out_args@.map_values(|s: String| s@) =~= pre_args.map_values(
                                |s: String| s@,
                            ).push(accseq[i as int].0).push(accseq[i as int].1));
                            assert(pre_args.map_values(|s: String| s@).push(accseq[i as int].0)
                                .push(accseq[i as int].1) + spec_argv(tail.skip(1))
                                =~= pre_args.map_values(|s: String| s@) + (seq![
                                accseq[i as int].0,
                                accseq[i as int].1,
                            ] + spec_argv(tail.skip(1))));
                        }
                    },
                }
            },
            SourceKeyMode::ENV => {
                out_envs.insert(b.key.clone(), b.value.clone());
                proof {
                    assert(out_args@.map_values(|s: String| s@) + spec_argv(tail.skip(1))
                        =~= pre_args.map_values(|s: String| s@) + (Seq::<Seq<char>>::empty()
                        + spec_argv(tail.skip(1))));
                }
            },
        }
        i = i + 1;
    }
    proof {
        assert(accseq.skip(i as int) =~= Seq::<AcceptedArg>::empty());
        assert(out_args@.map_values(|s: String| s@) + Seq::<Seq<char>>::empty()
            =~= out_args@.map_values(|s: String| s@));
    }

    // the script-substitution map
    let attrs = build_attrs(&config.attach);
    let ghost attrseq = spec_attrs(config.attach.entries());
    let mut script_vars = Vars::new();

    let an = attrs.len();
    let mut i: usize = 0;
    proof {
        assert(attrseq.skip(0) =~= attrseq);
    }
    while i < an
        invariant
            an == attrs@.len(),
            attrs@.map_values(|p: (String, String)| (p.0@, p.1@)) == attrseq,
            i <= an,
            script_vars.wf(),
            spec_overlay(Seq::empty(), attrseq) == spec_overlay(
                script_vars.entries(),
                attrseq.skip(i as int),
            ),
        decreases an - i,
    {
        proof {
            assert(attrseq.skip(i as int)[0] == attrseq[i as int]);
            assert(attrseq[i as int] == (attrs@[i as int].0@, attrs@[i as int].1@));
            assert(attrseq.skip(i as int).skip(1) =~= attrseq.skip(i + 1 as int));
        }
        let pair = &attrs[i];
        script_vars.insert(pair.0.clone(), pair.1.clone());
        i = i + 1;
    }
    proof {
        assert(attrseq.skip(i as int) =~= Seq::<VarEntry>::empty());
    }
    let ghost after_attrs = script_vars.entries();

    let ghost wrapped_args = spec_wrap_args(accseq);
    let mut i: usize = 0;
    proof {
        assert(wrapped_args.skip(0) =~= wrapped_args);
    }
    while i < m
        invariant
            m == accepted@.len(),
            accseq == accepted@.map_values(|b: BinaryArg| (b.key@, b.value@, b.mode)),
            wrapped_args == spec_wrap_args(accseq),
            i <= m,
            script_vars.wf(),
            spec_overlay(after_attrs, wrapped_args) == spec_overlay(
                script_vars.entries(),
                wrapped_args.skip(i as int),
            ),
        decreases m - i,
    {
        proof {
            assert(wrapped_args.skip(i as int)[0] == wrapped_args[i as int]);
            assert(wrapped_args[i as int] == (spec_wrap_key(accseq[i as int].0),
            accseq[i as int].1));
            assert(accseq[i as int] == (accepted@[i as int].key@, accepted@[i as int].value@,
            accepted@[i as int].mode));
            assert(wrapped_args.skip(i as int).skip(1) =~= wrapped_args.skip(i + 1 as int));
        }
        let b = &accepted[i];
        let wrapped = wrap_key(b.key.as_str());
        script_vars.insert(wrapped, b.value.clone());
        i = i + 1;
    }
    proof {
        assert(wrapped_args.skip(i as int) =~= Seq::<VarEntry>::empty());
    }
    let ghost after_args = script_vars.entries();

    let ghost wrapped_vars = spec_wrap_vars(vb);
    let vn = vars.len();
    let mut i: usize = 0;
    proof {
        assert(wrapped_vars.skip(0) =~= wrapped_vars);
    }
    while i < vn
        invariant
            vn == vars.entries().len(),
            vb == vars.entries(),
            wrapped_vars == spec_wrap_vars(vb),
            i <= vn,
            script_vars.wf(),
            spec_overlay(after_args, wrapped_vars) == spec_overlay(
                script_vars.entries(),
                wrapped_vars.skip(i as int),
            ),
        decreases vn - i,
    {
        proof {
            assert(wrapped_vars.skip(i as int)[0] == wrapped_vars[i as int]);
            assert(wrapped_vars[i as int] == (spec_wrap_key(vb[i as int].0), vb[i as int].1));
            assert(wrapped_vars.skip(i as int).skip(1) =~= wrapped_vars.skip(i + 1 as int));
        }
        let pair = vars.pair_at(i);
        let wrapped = wrap_key(pair.0.as_str());
        script_vars.insert(wrapped, pair.1.clone());
        i = i + 1;
    }
    proof {
        assert(wrapped_vars.skip(i as int) =~= Seq::<VarEntry>::empty());
    }

    Ok(BinaryContext { args: out_args, envs: out_envs, script_vars })
}

// ---------------------------------------------------------------------
// Round trips.
// ---------------------------------------------------------------------

/// How one entry-level insert changes lookups.
proof fn lemma_insert_entry_lookup(entries: Seq<VarEntry>, k: Seq<char>, v: Seq<char>, kk: Seq<char>)
    ensures
        entries_lookup(spec_insert_entry(entries, k, v), kk) == (if kk == k {
            Some(v)
        } else {
            entries_lookup(entries, kk)
        }),
    decreases entries.len(),
{
    let ins = spec_insert_entry(entries, k, v);
    if entries.len() == 0 {
        assert(ins == seq![(k, v)]);
        assert(ins[0] == (k, v));
        assert(ins.skip(1) =~= Seq::<VarEntry>::empty());
        if kk == k {
            assert(entries_lookup(ins, kk) == Some(v));
        } else {
            assert(entries_lookup(ins, kk) == entries_lookup(ins.skip(1), kk));
            assert(entries_lookup(ins, kk) is None);
        }
    } else if entries[0].0 == k {
        assert(ins == seq![(k, v)] + entries.skip(1));
        assert(ins[0] == (k, v));
        assert(ins.skip(1) =~= entries.skip(1));
        if kk == k {
            assert(entries_lookup(ins, kk) == Some(v));
        } else {
            assert(entries_lookup(ins, kk) == entries_lookup(entries.skip(1), kk));
            assert(entries_lookup(entries, kk) == entries_lookup(entries.skip(1), kk));
        }
    } else {
        assert(ins == seq![entries[0]] + spec_insert_entry(entries.skip(1), k, v));
        assert(ins[0] == entries[0]);
        assert(ins.len() == 1 + spec_insert_entry(entries.skip(1), k, v).len());
        assert(ins.skip(1) =~= spec_insert_entry(entries.skip(1), k, v));
        lemma_insert_entry_lookup(entries.skip(1), k, v, kk);
        if kk == entries[0].0 {
            assert(entries_lookup(ins, kk) == Some(entries[0].1));
            assert(entries_lookup(entries, kk) == Some(entries[0].1));
        } else {
            assert(entries_lookup(ins, kk) == entries_lookup(ins.skip(1), kk));
            assert(entries_lookup(entries, kk) == entries_lookup(entries.skip(1), kk));
        }
    }
}

/// Overlaying a batch that avoids `k` leaves the lookup of `k` alone.
proof fn lemma_overlay_lookup_miss(entries: Seq<VarEntry>, batch: Seq<VarEntry>, k: Seq<char>)
    requires
        forall|j: int| 0 <= j < batch.len() ==> (#[trigger] batch[j]).0 != k,
    ensures
        entries_lookup(spec_overlay(entries, batch), k) == entries_lookup(entries, k),
    decreases batch.len(),
{
    if batch.len() > 0 {
        lemma_insert_entry_lookup(entries, batch[0].0, batch[0].1, k);
        assert forall|j: int| 0 <= j < batch.skip(1).len() implies (#[trigger] batch.skip(1)[j]).0
            != k by {
            assert(batch.skip(1)[j] == batch[j + 1]);
        }
        lemma_overlay_lookup_miss(spec_insert_entry(entries, batch[0].0, batch[0].1),
        batch.skip(1), k);
    }
}

/// Overlaying a batch with pairwise-distinct keys makes each batch key
/// map to its batch value.
proof fn lemma_overlay_lookup_hit(entries: Seq<VarEntry>, batch: Seq<VarEntry>, i: int)
    requires
        crate::vars::entries_unique(batch),
        0 <= i < batch.len(),
    ensures
        entries_lookup(spec_overlay(entries, batch), batch[i].0) == Some(batch[i].1),
    decreases batch.len(),
{
    let e1 = spec_insert_entry(entries, batch[0].0, batch[0].1);
    if i == 0 {
        lemma_insert_entry_lookup(entries, batch[0].0, batch[0].1, batch[0].0);
        assert forall|j: int| 0 <= j < batch.skip(1).len() implies (#[trigger] batch.skip(1)[j]).0
            != batch[0].0 by {
            assert(batch.skip(1)[j] == batch[j + 1]);
        }
        lemma_overlay_lookup_miss(e1, batch.skip(1), batch[0].0);
    } else {
        assert(batch.skip(1)[i - 1] == batch[i]);
        assert forall|a: int, b: int|
            0 <= a < batch.skip(1).len() && 0 <= b < batch.skip(1).len() && a != b implies (
        #[trigger] batch.skip(1)[a]).0 != (#[trigger] batch.skip(1)[b]).0 by {
            assert(batch.skip(1)[a] == batch[a + 1]);
            assert(batch.skip(1)[b] == batch[b + 1]);
        }
        lemma_overlay_lookup_hit(e1, batch.skip(1), i - 1);
    }
}

/// Overlaying a batch makes a key map to its batch value when no
/// later batch entry reuses that key.
proof fn lemma_overlay_lookup_hit_last(entries: Seq<VarEntry>, batch: Seq<VarEntry>, i: int)
    requires
        0 <= i < batch.len(),
        forall|j: int| i < j < batch.len() ==> (#[trigger] batch[j]).0 != batch[i].0,
    ensures
        entries_lookup(spec_overlay(entries, batch), batch[i].0) == Some(batch[i].1),
    decreases batch.len(),
{
    let e1 = spec_insert_entry(entries, batch[0].0, batch[0].1);
    if i == 0 {
        lemma_insert_entry_lookup(entries, batch[0].0, batch[0].1, batch[0].0);
        assert forall|j: int| 0 <= j < batch.skip(1).len() implies (#[trigger] batch.skip(1)[j]).0
            != batch[0].0 by {
            assert(batch.skip(1)[j] == batch[j + 1]);
        }
        lemma_overlay_lookup_miss(e1, batch.skip(1), batch[0].0);
    } else {
        assert(batch.skip(1)[i - 1] == batch[i]);
        assert forall|j: int| i - 1 < j < batch.skip(1).len() implies (#[trigger] batch.skip(
            1,
        )[j]).0 != batch.skip(1)[i - 1].0 by {
            assert(batch.skip(1)[j] == batch[j + 1]);
        }
        lemma_overlay_lookup_hit_last(e1, batch.skip(1), i - 1);
    }
}

/// Concatenation with a fixed prefix is injective.
proof fn lemma_prefix_injective(prefix: Seq<char>, a: Seq<char>, b: Seq<char>)
    requires
        prefix + a == prefix + b,
    ensures
        a == b,
{
    assert(a =~= (prefix + a).skip(prefix.len() as int));
    assert(b =~= (prefix + b).skip(prefix.len() as int));
}

/// Copying a snapshot with pairwise-distinct keys under a prefix makes
/// each prefixed key map to its snapshot value.
proof fn lemma_prefix_lookup_hit(
    entries: Seq<VarEntry>,
    snapshot: Seq<VarEntry>,
    prefix: Seq<char>,
    i: int,
)
    requires
        crate::vars::entries_unique(snapshot),
        0 <= i < snapshot.len(),
    ensures
        entries_lookup(spec_prefix_copies(entries, snapshot, prefix), prefix + snapshot[i].0)
            == Some(snapshot[i].1),
    decreases snapshot.len(),
{
    let e1 = spec_insert_entry(entries, prefix + snapshot[0].0, snapshot[0].1);
    if i == 0 {
        lemma_insert_entry_lookup(entries, prefix + snapshot[0].0, snapshot[0].1,
        prefix + snapshot[0].0);
        lemma_prefix_lookup_miss(e1, snapshot.skip(1), prefix, prefix + snapshot[0].0,
        snapshot[0].0);
    } else {
        assert(snapshot.skip(1)[i - 1] == snapshot[i]);
        assert forall|a: int, b: int|
            0 <= a < snapshot.skip(1).len() && 0 <= b < snapshot.skip(1).len() && a != b implies (
        #[trigger] snapshot.skip(1)[a]).0 != (#[trigger] snapshot.skip(1)[b]).0 by {
            assert(snapshot.skip(1)[a] == snapshot[a + 1]);
            assert(snapshot.skip(1)[b] == snapshot[b + 1]);
        }
        lemma_prefix_lookup_hit(e1, snapshot.skip(1), prefix, i - 1);
    }
}

/// Prefixed copies of a snapshot that does not hold `raw` leave the
/// lookup of `prefix + raw` alone.
proof fn lemma_prefix_lookup_miss(
    entries: Seq<VarEntry>,
    snapshot: Seq<VarEntry>,
    prefix: Seq<char>,
    k: Seq<char>,
    raw: Seq<char>,
)
    requires
        k == prefix + raw,
        forall|j: int| 0 <= j < snapshot.len() ==> (#[trigger] snapshot[j]).0 != raw,
    ensures
        entries_lookup(spec_prefix_copies(entries, snapshot, prefix), k) == entries_lookup(
            entries,
            k,
        ),
    decreases snapshot.len(),
{
    if snapshot.len() > 0 {
        assert(prefix + snapshot[0].0 != k) by {
            if prefix + snapshot[0].0 == k {
                lemma_prefix_injective(prefix, snapshot[0].0, raw);
            }
        }
        lemma_insert_entry_lookup(entries, prefix + snapshot[0].0, snapshot[0].1, k);
        assert forall|j: int| 0 <= j < snapshot.skip(1).len() implies (#[trigger] snapshot.skip(
            1,
        )[j]).0 != raw by {
            assert(snapshot.skip(1)[j] == snapshot[j + 1]);
        }
        lemma_prefix_lookup_miss(spec_insert_entry(entries, prefix + snapshot[0].0,
        snapshot[0].1), snapshot.skip(1), prefix, k, raw);
    }
}

/// Environment round trip: after the raw overlay and the prefixed
/// copies, every environment variable is readable both under its own
/// name and under its `env.`-prefixed name, with its own value.
pub proof fn lemma_env_round_trip(entries: Seq<VarEntry>, env: Seq<VarEntry>, i: int)
    requires
        crate::vars::entries_unique(env),
        0 <= i < env.len(),
    ensures
        entries_lookup(
            spec_prefix_copies(spec_overlay(entries, env), env, "env."@),
            "env."@ + env[i].0,
        ) == Some(env[i].1),
        entries_lookup(spec_overlay(entries, env), env[i].0) == Some(env[i].1),
{
    lemma_overlay_lookup_hit(entries, env, i);
    lemma_prefix_lookup_hit(spec_overlay(entries, env), env, "env."@, i);
}

/// The wrapped form of a key determines the key.
proof fn lemma_wrap_key_injective(a: Seq<char>, b: Seq<char>)
    requires
        spec_wrap_key(a) == spec_wrap_key(b),
    ensures
        a == b,
{
    reveal_strlit("{{");
    reveal_strlit("}}");
    assert(spec_wrap_key(a).len() == a.len() + 4);
    assert(spec_wrap_key(b).len() == b.len() + 4);
    assert(a =~= spec_wrap_key(a).subrange(2, 2 + a.len() as int));
    assert(b =~= spec_wrap_key(b).subrange(2, 2 + b.len() as int));
}

/// The environment fold gives an environment-mode argument its value,
/// when no later accepted argument reuses its key.
proof fn lemma_env_out_hit(env0: Seq<VarEntry>, acc: Seq<AcceptedArg>, i: int)
    requires
        0 <= i < acc.len(),
        acc[i].2 is ENV,
        forall|j: int| 0 <= j < acc.len() && j != i ==> (#[trigger] acc[j]).0 != acc[i].0,
    ensures
        entries_lookup(spec_env_out(env0, acc), acc[i].0) == Some(acc[i].1),
    decreases acc.len(),
{
    let e1 = match acc[0].2 {
        SourceKeyMode::ENV => spec_insert_entry(env0, acc[0].0, acc[0].1),
        _ => env0,
    };
    if i == 0 {
        lemma_insert_entry_lookup(env0, acc[0].0, acc[0].1, acc[0].0);
        lemma_env_out_miss(e1, acc.skip(1), acc[0].0);
    } else {
        assert(acc.skip(1)[i - 1] == acc[i]);
        assert forall|j: int|
            0 <= j < acc.skip(1).len() && j != i - 1 implies (#[trigger] acc.skip(1)[j]).0
            != acc.skip(1)[i - 1].0 by {
            assert(acc.skip(1)[j] == acc[j + 1]);
        }
        lemma_env_out_hit(e1, acc.skip(1), i - 1);
    }
}

/// The environment fold over arguments that avoid `k` leaves the
/// lookup of `k` alone.
proof fn lemma_env_out_miss(env0: Seq<VarEntry>, acc: Seq<AcceptedArg>, k: Seq<char>)
    requires
        forall|j: int| 0 <= j < acc.len() ==> (#[trigger] acc[j]).0 != k,
    ensures
        entries_lookup(spec_env_out(env0, acc), k) == entries_lookup(env0, k),
    decreases acc.len(),
{
    if acc.len() > 0 {
        let e1 = match acc[0].2 {
            SourceKeyMode::ENV => spec_insert_entry(env0, acc[0].0, acc[0].1),
            _ => env0,
        };
        lemma_insert_entry_lookup(env0, acc[0].0, acc[0].1, k);
        assert forall|j: int| 0 <= j < acc.skip(1).len() implies (#[trigger] acc.skip(1)[j]).0
            != k by {
            assert(acc.skip(1)[j] == acc[j + 1]);
        }
        lemma_env_out_miss(e1, acc.skip(1), k);
    }
}

/// A default-mode argument stands on the command line as its key and
/// its value, side by side.
proof fn lemma_argv_default(acc: Seq<AcceptedArg>, i: int)
    requires
        0 <= i < acc.len(),
        acc[i].2 == SourceKeyMode::ARG(crate::config::prop::SourceKeyArgMode::DEFAULT),
    ensures
        exists|j: int|
            0 <= j && j + 1 < spec_argv(acc).len() && (#[trigger] spec_argv(acc)[j]) == acc[i].0
                && spec_argv(acc)[j + 1] == acc[i].1,
    decreases acc.len(),
{
    let head = match acc[0].2 {
        SourceKeyMode::ARG(sub) => match sub {
            crate::config::prop::SourceKeyArgMode::BOOL => seq![acc[0].0],
            crate::config::prop::SourceKeyArgMode::MERGE => seq![acc[0].0 + "="@ + acc[0].1],
            crate::config::prop::SourceKeyArgMode::DEFAULT => seq![acc[0].0, acc[0].1],
        },
        SourceKeyMode::ENV => Seq::<Seq<char>>::empty(),
    };
    if i == 0 {
        assert(spec_argv(acc)[0] == acc[0].0);
        assert(spec_argv(acc)[1] == acc[0].1);
    } else {
        assert(acc.skip(1)[i - 1] == acc[i]);
        lemma_argv_default(acc.skip(1), i - 1);
        let j = choose|j: int|
            0 <= j && j + 1 < spec_argv(acc.skip(1)).len() && (#[trigger] spec_argv(acc.skip(1))[j])
                == acc.skip(1)[i - 1].0 && spec_argv(acc.skip(1))[j + 1] == acc.skip(1)[i - 1].1;
        assert(spec_argv(acc) == head + spec_argv(acc.skip(1)));
        assert(spec_argv(acc)[head.len() + j] == acc[i].0);
        assert(spec_argv(acc)[head.len() + j + 1] == acc[i].1);
    }
}

/// Script-variable round trip: for an accepted argument whose key
/// names no configuration variable and no other accepted argument, the
/// hook scripts read through `{{key}}` the very string the worker
/// passes on - into the child environment for an environment-mode
/// argument, and onto the command line, key and value side by side,
/// for a default-mode one.
pub proof fn lemma_script_vars_round_trip(
    attrs: Seq<VarEntry>,
    acc: Seq<AcceptedArg>,
    vb: Seq<VarEntry>,
    env0: Seq<VarEntry>,
    i: int,
)
    requires
        0 <= i < acc.len(),
        !entries_contain_key(vb, acc[i].0),
        forall|j: int| 0 <= j < acc.len() && j != i ==> (#[trigger] acc[j]).0 != acc[i].0,
    ensures
        entries_lookup(spec_script_vars(attrs, acc, vb), spec_wrap_key(acc[i].0)) == Some(
            acc[i].1,
        ),
        acc[i].2 is ENV ==> entries_lookup(spec_env_out(env0, acc), acc[i].0) == Some(acc[i].1),
        acc[i].2 == SourceKeyMode::ARG(crate::config::prop::SourceKeyArgMode::DEFAULT)
            ==> exists|j: int|
            0 <= j && j + 1 < spec_argv(acc).len() && (#[trigger] spec_argv(acc)[j]) == acc[i].0
                && spec_argv(acc)[j + 1] == acc[i].1,
{
    let base = spec_overlay(Seq::empty(), attrs);
    let wargs = spec_wrap_args(acc);
    let wvars = spec_wrap_vars(vb);
    // the wrapped argument lands in the middle overlay
    assert(wargs[i] == (spec_wrap_key(acc[i].0), acc[i].1));
    assert forall|j: int| i < j < wargs.len() implies (#[trigger] wargs[j]).0 != wargs[i].0 by {
        assert(wargs[j] == (spec_wrap_key(acc[j].0), acc[j].1));
        if spec_wrap_key(acc[j].0) == spec_wrap_key(acc[i].0) {
            lemma_wrap_key_injective(acc[j].0, acc[i].0);
        }
    }
    lemma_overlay_lookup_hit_last(base, wargs, i);
    // the final overlay of wrapped variables misses the wrapped key
    assert forall|j: int| 0 <= j < wvars.len() implies (#[trigger] wvars[j]).0 != spec_wrap_key(
        acc[i].0,
    ) by {
        assert(wvars[j] == (spec_wrap_key(vb[j].0), vb[j].1));
        if spec_wrap_key(vb[j].0) == spec_wrap_key(acc[i].0) {
            lemma_wrap_key_injective(vb[j].0, acc[i].0);
            assert(entries_contain_key(vb, acc[i].0));
        }
    }
    lemma_overlay_lookup_miss(spec_overlay(base, wargs), wvars, spec_wrap_key(acc[i].0));
    if acc[i].2 is ENV {
        lemma_env_out_hit(env0, acc, i);
    }
    if acc[i].2 == SourceKeyMode::ARG(crate::config::prop::SourceKeyArgMode::DEFAULT) {
        lemma_argv_default(acc, i);
    }
}

/// Alias rules that avoid `k` leave the lookup of `k` alone.
proof fn lemma_aliases_fold_lookup_miss(
    entries: Seq<VarEntry>,
    aliases: Seq<ProjectConfigAlias>,
    k: Seq<char>,
)
    requires
        forall|j: int| 0 <= j < aliases.len() ==> (#[trigger] aliases[j]).key@ != k,
    ensures
        entries_lookup(spec_aliases_fold(entries, aliases), k) == entries_lookup(entries, k),
    decreases aliases.len(),
{
    if aliases.len() > 0 {
        let e1 = spec_alias_step(entries, aliases[0]);
        match spec_alias_value(aliases[0].expr@.map_values(|e: String| e@), entries) {
            Some(v) => {
                if aliases[0].over || !entries_contain_key(entries, aliases[0].key@) {
                    lemma_insert_entry_lookup(entries, aliases[0].key@, v, k);
                }
            },
            None => {
            },
        }
        assert forall|j: int|
            0 <= j < aliases.skip(1).len() implies (#[trigger] aliases.skip(1)[j]).key@ != k by {
            assert(aliases.skip(1)[j] == aliases[j + 1]);
        }
        lemma_aliases_fold_lookup_miss(e1, aliases.skip(1), k);
    }
}

/// The attach pass keeps every key and substitutes inside its value.
proof fn lemma_attrs_pass_lookup(entries: Seq<VarEntry>, attrs: Seq<VarEntry>, k: Seq<char>)
    ensures
        entries_lookup(spec_attrs_pass(entries, attrs), k) == match entries_lookup(entries, k) {
            Some(v) => Some(crate::utils::string::spec_replace_pairs_fix(v, attrs)),
            None => None,
        },
    decreases entries.len(),
{
    let m = spec_attrs_pass(entries, attrs);
    if entries.len() > 0 {
        assert(m[0] == (entries[0].0, crate::utils::string::spec_replace_pairs_fix(
            entries[0].1,
            attrs,
        )));
        assert(m.skip(1) =~= spec_attrs_pass(entries.skip(1), attrs));
        if entries[0].0 != k {
            lemma_attrs_pass_lookup(entries.skip(1), attrs, k);
        }
    }
}

/// The script map reads back any built variable under its wrapped
/// key: the final overlay of the wrapped variable map wins.
pub proof fn lemma_script_vars_reads_vars(
    attrs_sv: Seq<VarEntry>,
    acc: Seq<AcceptedArg>,
    vb: Seq<VarEntry>,
    k: Seq<char>,
    v: Seq<char>,
)
    requires
        crate::vars::entries_unique(vb),
        entries_lookup(vb, k) == Some(v),
    ensures
        entries_lookup(spec_script_vars(attrs_sv, acc, vb), spec_wrap_key(k)) == Some(v),
{
    crate::vars::lemma_lookup_some_iff_contains(vb, k);
    let j = choose|j: int| 0 <= j < vb.len() && (#[trigger] vb[j]).0 == k;
    assert forall|t: int| 0 <= t < j implies (#[trigger] vb[t]).0 != k by {}
    crate::vars::lemma_lookup_at_index(vb, k, j);
    let wvars = spec_wrap_vars(vb);
    assert(wvars[j] == (spec_wrap_key(k), vb[j].1));
    assert forall|t: int| j < t < wvars.len() implies (#[trigger] wvars[t]).0 != wvars[j].0 by {
        assert(wvars[t] == (spec_wrap_key(vb[t].0), vb[t].1));
        if spec_wrap_key(vb[t].0) == spec_wrap_key(vb[j].0) {
            lemma_wrap_key_injective(vb[t].0, vb[j].0);
        }
    }
    lemma_overlay_lookup_hit_last(
        spec_overlay(spec_overlay(Seq::empty(), attrs_sv), spec_wrap_args(acc)),
        wvars,
        j,
    );
}

/// Environment round trip through the whole pipeline: with unique
/// environment keys, no alias rule naming the `env.`-prefixed copy,
/// and no attach token inside the value, the built variable map binds
/// `env.`+k to the environment's own value, and the hook scripts read
/// that same value back through `{{env.`+k+`}}`.
pub proof fn lemma_env_round_trip_through_build(
    paths: Seq<Seq<char>>,
    contents: Seq<Option<Seq<char>>>,
    env: Seq<VarEntry>,
    aliases: Seq<ProjectConfigAlias>,
    attrs: Seq<VarEntry>,
    attrs_sv: Seq<VarEntry>,
    acc: Seq<AcceptedArg>,
    i: int,
)
    requires
        crate::vars::entries_unique(env),
        0 <= i < env.len(),
        forall|j: int| 0 <= j < aliases.len() ==> (#[trigger] aliases[j]).key@ != "env."@ + env[i].0,
        forall|j: int|
            0 <= j < attrs.len() ==> !crate::utils::string::contains_seq(
                env[i].1,
                (#[trigger] attrs[j]).0,
            ),
        crate::vars::entries_unique(spec_build_vars(paths, contents, env, aliases, attrs)),
    ensures
        entries_lookup(
            spec_build_vars(paths, contents, env, aliases, attrs),
            "env."@ + env[i].0,
        ) == Some(env[i].1),
        entries_lookup(
            spec_script_vars(attrs_sv, acc, spec_build_vars(paths, contents, env, aliases, attrs)),
            spec_wrap_key("env."@ + env[i].0),
        ) == Some(env[i].1),
{
    let from_sources = spec_sources_fold(Seq::empty(), paths, contents);
    let with_var_ns = spec_prefix_copies(from_sources, from_sources, "var."@);
    let e5 = spec_vars_before_aliases(paths, contents, env);
    lemma_env_round_trip(with_var_ns, env, i);
    assert(entries_lookup(e5, "env."@ + env[i].0) == Some(env[i].1));
    let e6 = spec_aliases_fold(e5, aliases);
    lemma_aliases_fold_lookup_miss(e5, aliases, "env."@ + env[i].0);
    lemma_attrs_pass_lookup(e6, attrs, "env."@ + env[i].0);
    crate::utils::string::lemma_pairs_fix_absent(env[i].1, attrs);
    let vb = spec_build_vars(paths, contents, env, aliases, attrs);
    lemma_script_vars_reads_vars(attrs_sv, acc, vb, "env."@ + env[i].0, env[i].1);
}

} // verus!
