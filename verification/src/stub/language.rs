//! The identifier-casing transformer and the full per-language
//! configuration: naming convention, keyword escaping and the treatment of
//! all-uppercase identifiers.
use vstd::prelude::*;
use vstd::string::StringExecFns;

use crate::text::{
    is_lower_char, is_upper_char, is_digit_char, to_lower_char, to_upper_char, lower_seq,
    contains_char, chars_vec, chars_to_string, push_all, copy_range, lower_range,
    lower_char_exec, upper_char_exec, str_eq, split_char,
};

verus! {

/// The identifier convention a target language declares its variables in.
#[derive(Clone, Copy, Debug, PartialEq, Eq, Structural)]
pub enum VariableNameFormat {
    SnakeCase,
    CamelCase,
    PascalCase,
}

// ---------------------------------------------------------------------------
// snake_case: insert an underscore at every lowercase-to-uppercase boundary,
// then lowercase the whole string.
// ---------------------------------------------------------------------------

/// The string with an underscore inserted at every lowercase-to-uppercase
/// boundary.
pub open spec fn snake_sep(s: Seq<char>) -> Seq<char>
    decreases s.len(),
{
    if s.len() <= 1 {
        s
    } else {
        snake_sep(s.drop_last()) + (if is_lower_char(s[s.len() - 2]) && is_upper_char(s.last()) {
            seq!['_', s.last()]
        } else {
            seq![s.last()]
        })
    }
}

pub open spec fn snake_of(s: Seq<char>) -> Seq<char> {
    lower_seq(snake_sep(s))
}

// ---------------------------------------------------------------------------
// PascalCase / camelCase word-boundary normalization of the tail (all
// characters after the first): a run of uppercase letters immediately
// followed by an uppercase-lowercase pair has all but the last uppercase
// letter lowercased, and a trailing run of uppercase letters keeps only its
// first letter uppercase.
// ---------------------------------------------------------------------------

/// Length of the maximal run of uppercase letters at the front of `s`.
pub open spec fn upper_run(s: Seq<char>) -> int
    decreases s.len(),
{
    if s.len() > 0 && is_upper_char(s[0]) {
        1 + upper_run(s.drop_first())
    } else {
        0
    }
}

pub proof fn lemma_upper_run_le(s: Seq<char>)
    ensures
        0 <= upper_run(s) <= s.len(),
    decreases s.len(),
{
    if s.len() > 0 && is_upper_char(s[0]) {
        lemma_upper_run_le(s.drop_first());
    }
}

/// Length of the maximal run of uppercase letters at the end of `s`.
pub open spec fn trailing_run(s: Seq<char>) -> int
    decreases s.len(),
{
    if s.len() > 0 && is_upper_char(s.last()) {
        1 + trailing_run(s.drop_last())
    } else {
        0
    }
}

pub proof fn lemma_trailing_run_le(s: Seq<char>)
    ensures
        0 <= trailing_run(s) <= s.len(),
    decreases s.len(),
{
    if s.len() > 0 && is_upper_char(s.last()) {
        lemma_trailing_run_le(s.drop_last());
    }
}

/// First normalization pass: wherever a run of uppercase letters is
/// immediately followed by a lowercase letter, every letter of the run but
/// the last is lowercased; scanning resumes after the pair.
pub open spec fn break_runs(s: Seq<char>) -> Seq<char>
    decreases s.len(),
{
    if s.len() == 0 {
        s
    } else {
        let r = upper_run(s);
        let m = if r > s.len() {
            s.len() as int
        } else {
            r
        };
        if m >= 1 && m < s.len() && is_lower_char(s[m]) {
            lower_seq(s.take(m - 1)) + seq![s[m - 1], s[m]] + break_runs(s.skip(m + 1))
        } else if m >= 1 {
            s.take(m) + break_runs(s.skip(m))
        } else {
            seq![s[0]] + break_runs(s.drop_first())
        }
    }
}

/// Second normalization pass: a trailing run of uppercase letters keeps its
/// first letter and has the rest lowercased.
pub open spec fn lower_trailing(s: Seq<char>) -> Seq<char> {
    let t = trailing_run(s);
    let k = if t > s.len() {
        s.len() as int
    } else {
        t
    };
    if k == 0 {
        s
    } else {
        s.take(s.len() - k) + seq![s[s.len() - k]] + lower_seq(s.skip(s.len() - k + 1))
    }
}

pub open spec fn pascalize_of(s: Seq<char>) -> Seq<char> {
    lower_trailing(break_runs(s))
}

pub open spec fn pascal_of(s: Seq<char>) -> Seq<char> {
    if s.len() == 0 {
        s
    } else {
        seq![to_upper_char(s[0])] + pascalize_of(s.drop_first())
    }
}

pub open spec fn camel_of(s: Seq<char>) -> Seq<char> {
    if s.len() == 0 {
        s
    } else {
        seq![to_lower_char(s[0])] + pascalize_of(s.drop_first())
    }
}

pub open spec fn convert_of(f: VariableNameFormat, s: Seq<char>) -> Seq<char> {
    match f {
        VariableNameFormat::SnakeCase => snake_of(s),
        VariableNameFormat::PascalCase => pascal_of(s),
        VariableNameFormat::CamelCase => camel_of(s),
    }
}

impl VariableNameFormat {
    /// Converts an identifier to this naming convention.
    pub fn convert(&self, variable_name: &str) -> (r: String)
        requires
            (*self is SnakeCase) || variable_name@.len() > 0,
        ensures
            r@ == convert_of(*self, variable_name@),
    {
        match self {
            VariableNameFormat::SnakeCase => Self::convert_to_snake_case(variable_name),
            VariableNameFormat::PascalCase => Self::covert_to_pascal_case(variable_name),
            VariableNameFormat::CamelCase => Self::covert_to_camel_case(variable_name),
        }
    }

    pub fn convert_to_snake_case(variable_name: &str) -> (r: String)
        ensures
            r@ == snake_of(variable_name@),
    {
        let v = chars_vec(variable_name);
        let n = v.len();
        let mut out: Vec<char> = Vec::new();
        let mut i: usize = 0;
        proof {
            assert(v@.take(0) =~= Seq::<char>::empty());
            assert(out@ =~= lower_seq(snake_sep(v@.take(0))));
        }
        while i < n
            invariant
                n == v.len(),
                0 <= i <= n,
                out@ == lower_seq(snake_sep(v@.take(i as int))),
            decreases n - i,
        {
            let ghost pre = v@.take(i as int);
            let ghost cur = v@.take(i + 1);
            proof {
                assert(cur.drop_last() =~= pre);
                assert(cur.last() == v@[i as int]);
            }
            if i >= 1 && { let a = v[i - 1]; let b = v[i]; ('a' <= a && a <= 'z') && ('A' <= b && b <= 'Z') } {
                out.push('_');
                out.push(lower_char_exec(v[i]));
                proof {
                    assert(cur[cur.len() - 2] == v@[i - 1]);
                    assert(snake_sep(cur) == snake_sep(pre) + seq!['_', v@[i as int]]);
                    assert(out@ =~= lower_seq(snake_sep(pre) + seq!['_', v@[i as int]]));
                    assert(lower_seq(snake_sep(pre) + seq!['_', v@[i as int]]) =~= lower_seq(
                        snake_sep(pre),
                    ) + seq![to_lower_char('_'), to_lower_char(v@[i as int])]);
                }
            } else {
                out.push(lower_char_exec(v[i]));
                proof {
                    if i >= 1 {
                        assert(cur[cur.len() - 2] == v@[i - 1]);
                        assert(snake_sep(cur) == snake_sep(pre) + seq![v@[i as int]]);
                    } else {
                        assert(cur.len() == 1);
                        assert(snake_sep(cur) == cur);
                        assert(cur =~= seq![v@[0]]);
                        assert(snake_sep(pre) + seq![v@[0]] =~= seq![v@[0]]);
                    }
                    assert(out@ =~= lower_seq(snake_sep(pre) + seq![v@[i as int]]));
                    assert(lower_seq(snake_sep(pre) + seq![v@[i as int]]) =~= lower_seq(
                        snake_sep(pre),
                    ) + seq![to_lower_char(v@[i as int])]);
                }
            }
            i = i + 1;
        }
        proof {
            assert(v@.take(n as int) =~= v@);
        }
        chars_to_string(&out)
    }

    pub fn covert_to_pascal_case(variable_name: &str) -> (r: String)
        requires
            variable_name@.len() > 0,
        ensures
            r@ == pascal_of(variable_name@),
    {
        let v = chars_vec(variable_name);
        let tail = copy_range(&v, 1, v.len());
        let p = Self::pascalize(&tail);
        let mut out: Vec<char> = Vec::new();
        out.push(upper_char_exec(v[0]));
        push_all(&mut out, &p);
        proof {
            assert(v@.subrange(1, v@.len() as int) =~= v@.drop_first());
            assert(out@ =~= pascal_of(v@));
        }
        chars_to_string(&out)
    }

    pub fn covert_to_camel_case(variable_name: &str) -> (r: String)
        requires
            variable_name@.len() > 0,
        ensures
            r@ == camel_of(variable_name@),
    {
        let v = chars_vec(variable_name);
        let tail = copy_range(&v, 1, v.len());
        let p = Self::pascalize(&tail);
        let mut out: Vec<char> = Vec::new();
        out.push(lower_char_exec(v[0]));
        push_all(&mut out, &p);
        proof {
            assert(v@.subrange(1, v@.len() as int) =~= v@.drop_first());
            assert(out@ =~= camel_of(v@));
        }
        chars_to_string(&out)
    }

    fn pascalize(variable_slice: &Vec<char>) -> (r: Vec<char>)
        ensures
            r@ == pascalize_of(variable_slice@),
    {
        let b = Self::break_runs_exec(variable_slice);
        Self::lower_trailing_exec(&b)
    }

    fn break_runs_exec(v: &Vec<char>) -> (r: Vec<char>)
        ensures
            r@ == break_runs(v@),
    {
        let n = v.len();
        let mut out: Vec<char> = Vec::new();
        let mut i: usize = 0;
        proof {
            assert(v@.skip(0) =~= v@);
            assert(out@ + break_runs(v@) =~= break_runs(v@));
        }
        while i < n
            invariant
                n == v.len(),
                0 <= i <= n,
                break_runs(v@) == out@ + break_runs(v@.skip(i as int)),
            decreases n - i,
        {
            let ghost suffix = v@.skip(i as int);
            let ghost old_out = out@;
            let m = upper_run_exec(v, i);
            proof {
                lemma_upper_run_le(suffix);
            }
            if m >= 1 && i + m < n && { let c = v[i + m]; 'a' <= c && c <= 'z' } {
                proof {
                    assert(suffix[m as int] == v@[i + m]);
                }
                let low = lower_range(v, i, i + m - 1);
                push_all(&mut out, &low);
                out.push(v[i + m - 1]);
                out.push(v[i + m]);
                proof {
                    assert(suffix.take(m - 1) =~= v@.subrange(i as int, i + m - 1));
                    assert(suffix[m - 1] == v@[i + m - 1]);
                    assert(suffix.skip(m + 1) =~= v@.skip(i + m + 1));
                    assert(break_runs(suffix) == lower_seq(suffix.take(m - 1)) + seq![
                        suffix[m - 1],
                        suffix[m as int],
                    ] + break_runs(v@.skip(i + m + 1)));
                    assert(out@ =~= old_out + lower_seq(suffix.take(m - 1)) + seq![
                        suffix[m - 1],
                        suffix[m as int],
                    ]);
                    assert(old_out + (lower_seq(suffix.take(m - 1)) + seq![
                        suffix[m - 1],
                        suffix[m as int],
                    ] + break_runs(v@.skip(i + m + 1))) =~= (old_out + lower_seq(
                        suffix.take(m - 1),
                    ) + seq![suffix[m - 1], suffix[m as int]]) + break_runs(v@.skip(i + m + 1)));
                }
                i = i + m + 1;
            } else if m >= 1 {
                let run = copy_range(v, i, i + m);
                push_all(&mut out, &run);
                proof {
                    assert(suffix.take(m as int) =~= v@.subrange(i as int, i + m));
                    assert(suffix.skip(m as int) =~= v@.skip(i + m));
                    if m < n - i {
                        assert(!is_lower_char(suffix[m as int]));
                    }
                    assert(break_runs(suffix) == suffix.take(m as int) + break_runs(
                        v@.skip(i + m),
                    ));
                    assert(old_out + (suffix.take(m as int) + break_runs(v@.skip(i + m)))
                        =~= (old_out + suffix.take(m as int)) + break_runs(v@.skip(i + m)));
                }
                i = i + m;
            } else {
                out.push(v[i]);
                proof {
                    assert(suffix[0] == v@[i as int]);
                    assert(suffix.drop_first() =~= v@.skip(i + 1));
                    assert(break_runs(suffix) == seq![suffix[0]] + break_runs(v@.skip(i + 1)));
                    assert(old_out + (seq![suffix[0]] + break_runs(v@.skip(i + 1))) =~= (old_out
                        + seq![suffix[0]]) + break_runs(v@.skip(i + 1)));
                    assert(out@ =~= old_out + seq![suffix[0]]);
                }
                i = i + 1;
            }
        }
        proof {
            assert(v@.skip(n as int) =~= Seq::<char>::empty());
            assert(out@ + break_runs(Seq::<char>::empty()) =~= out@);
        }
        out
    }

    fn lower_trailing_exec(v: &Vec<char>) -> (r: Vec<char>)
        ensures
            r@ == lower_trailing(v@),
    {
        let n = v.len();
        let k = trailing_run_exec(v);
        proof {
            lemma_trailing_run_le(v@);
        }
        if k == 0 {
            let r = copy_range(v, 0, n);
            proof {
                assert(v@.subrange(0, n as int) =~= v@);
            }
            r
        } else {
            let mut out = copy_range(v, 0, n - k);
            out.push(v[n - k]);
            let low = lower_range(v, n - k + 1, n);
            push_all(&mut out, &low);
            proof {
                assert(v@.subrange(n - k + 1, n as int) =~= v@.skip(n - k + 1));
                assert(out@ =~= lower_trailing(v@));
            }
            out
        }
    }
}

/// Length of the maximal run of uppercase letters in `v` starting at `i`.
fn upper_run_exec(v: &Vec<char>, i: usize) -> (m: usize)
    requires
        i <= v.len(),
    ensures
        i + m <= v.len(),
        m as int == upper_run(v@.skip(i as int)),
{
    let n = v.len();
    let mut j: usize = i;
    while j < n && 'A' <= v[j] && v[j] <= 'Z'
        invariant
            i <= j <= n,
            n == v.len(),
            upper_run(v@.skip(i as int)) == (j - i) + upper_run(v@.skip(j as int)),
            forall|t: int| i <= t < j ==> is_upper_char(#[trigger] v@[t]),
        decreases n - j,
    {
        proof {
            assert(v@.skip(j as int)[0] == v@[j as int]);
            assert(v@.skip(j as int).drop_first() =~= v@.skip(j + 1));
        }
        j = j + 1;
    }
    proof {
        if j < n {
            assert(v@.skip(j as int)[0] == v@[j as int]);
            assert(upper_run(v@.skip(j as int)) == 0);
        } else {
            assert(v@.skip(j as int).len() == 0);
        }
    }
    j - i
}

/// Length of the maximal run of uppercase letters at the end of `v`.
fn trailing_run_exec(v: &Vec<char>) -> (k: usize)
    ensures
        k <= v.len(),
        k as int == trailing_run(v@),
{
    let n = v.len();
    let mut j: usize = n;
    proof {
        assert(v@.take(n as int) =~= v@);
    }
    while j > 0 && 'A' <= v[j - 1] && v[j - 1] <= 'Z'
        invariant
            0 <= j <= n,
            n == v.len(),
            trailing_run(v@) == (n - j) + trailing_run(v@.take(j as int)),
        decreases j,
    {
        proof {
            assert(v@.take(j as int).last() == v@[j - 1]);
            assert(v@.take(j as int).drop_last() =~= v@.take(j - 1));
        }
        j = j - 1;
    }
    proof {
        if j > 0 {
            assert(v@.take(j as int).last() == v@[j - 1]);
            assert(trailing_run(v@.take(j as int)) == 0);
        } else {
            assert(v@.take(0).len() == 0);
        }
    }
    n - j
}

// ---------------------------------------------------------------------------
// The full language configuration.
// ---------------------------------------------------------------------------

/// The per-type target-language tokens used by the read and loop-line
/// templates.
#[derive(Clone, Debug, PartialEq, Eq)]
pub struct TypeTokens {
    pub int: Option<String>,
    pub float: Option<String>,
    pub long: Option<String>,
    pub bool: Option<String>,
    pub word: Option<String>,
    pub string: Option<String>,
}

/// The ghost image of a `TypeTokens`.
pub struct TypeTokensModel {
    pub int: Option<Seq<char>>,
    pub float: Option<Seq<char>>,
    pub long: Option<Seq<char>>,
    pub bool: Option<Seq<char>>,
    pub word: Option<Seq<char>>,
    pub string: Option<Seq<char>>,
}

pub open spec fn opt_view(o: Option<String>) -> Option<Seq<char>> {
    match o {
        Some(s) => Some(s@),
        None => None,
    }
}

impl View for TypeTokens {
    type V = TypeTokensModel;

    open spec fn view(&self) -> TypeTokensModel {
        TypeTokensModel {
            int: opt_view(self.int),
            float: opt_view(self.float),
            long: opt_view(self.long),
            bool: opt_view(self.bool),
            word: opt_view(self.word),
            string: opt_view(self.string),
        }
    }
}

/// One target language's full configuration, as the renderer consumes it.
#[derive(Clone, Debug)]
pub struct Language {
    pub name: String,
    pub variable_format: VariableNameFormat,
    pub allow_uppercase_vars: Option<bool>,
    pub source_file_ext: String,
    pub type_tokens: TypeTokens,
    pub keywords: Vec<String>,
    pub aliases: Option<Vec<String>>,
}

/// The ghost image of a `Language`.
pub struct LanguageModel {
    pub name: Seq<char>,
    pub variable_format: VariableNameFormat,
    pub allow_uppercase_vars: Option<bool>,
    pub source_file_ext: Seq<char>,
    pub type_tokens: TypeTokensModel,
    pub keywords: Seq<Seq<char>>,
    pub aliases: Option<Seq<Seq<char>>>,
}

impl View for Language {
    type V = LanguageModel;

    open spec fn view(&self) -> LanguageModel {
        LanguageModel {
            name: self.name@,
            variable_format: self.variable_format,
            allow_uppercase_vars: self.allow_uppercase_vars,
            source_file_ext: self.source_file_ext@,
            type_tokens: self.type_tokens@,
            keywords: self.keywords@.map_values(|k: String| k@),
            aliases: match self.aliases {
                Some(a) => Some(a@.map_values(|k: String| k@)),
                None => None,
            },
        }
    }
}

/// Is the identifier made of uppercase letters only?
pub open spec fn is_upper_string(s: Seq<char>) -> bool {
    forall|i: int| 0 <= i < s.len() ==> is_upper_char(#[trigger] s[i])
}

pub fn is_uppercase_string(string: &str) -> (r: bool)
    ensures
        r == is_upper_string(string@),
{
    let v = chars_vec(string);
    let n = v.len();
    let mut i: usize = 0;
    while i < n
        invariant
            n == v.len(),
            v@ == string@,
            0 <= i <= n,
            forall|j: int| 0 <= j < i ==> is_upper_char(#[trigger] v@[j]),
        decreases n - i,
    {
        let c = v[i];
        if !('A' <= c && c <= 'Z') {
            return false;
        }
        i = i + 1;
    }
    true
}

/// The casing stage of identifier transformation, before keyword escaping:
/// an all-uppercase identifier bypasses the convention and is lowercased
/// only when the language forbids uppercase variables.
pub open spec fn case_stage(l: LanguageModel, s: Seq<char>) -> Seq<char> {
    if is_upper_string(s) {
        if l.allow_uppercase_vars == Some(false) {
            lower_seq(s)
        } else {
            s
        }
    } else {
        convert_of(l.variable_format, s)
    }
}

/// Keyword escaping: a reserved identifier gains one leading underscore.
pub open spec fn escape_of(keywords: Seq<Seq<char>>, s: Seq<char>) -> Seq<char> {
    if keywords.contains(s) {
        seq!['_'] + s
    } else {
        s
    }
}

/// The whole identifier transformation.
pub open spec fn transform_of(l: LanguageModel, s: Seq<char>) -> Seq<char> {
    escape_of(l.keywords, case_stage(l, s))
}

impl Language {
    /// Adapts one variable name to this language: casing first, then
    /// keyword escaping.
    pub fn transform_variable_name(&self, variable_name: &str) -> (r: String)
        ensures
            r@ == transform_of(self@, variable_name@),
    {
        let converted_variable_name = if is_uppercase_string(variable_name) {
            match self.allow_uppercase_vars {
                Some(false) => {
                    let v = chars_vec(variable_name);
                    let low = lower_range(&v, 0, v.len());
                    proof {
                        assert(v@.subrange(0, v@.len() as int) =~= v@);
                    }
                    chars_to_string(&low)
                },
                _ => {
                    let v = chars_vec(variable_name);
                    chars_to_string(&v)
                },
            }
        } else {
            proof {
                if variable_name@.len() == 0 {
                    assert(is_upper_string(variable_name@));
                }
            }
            self.variable_format.convert(variable_name)
        };
        self.escape_keywords(converted_variable_name)
    }

    /// Transforms the name of one declared variable, leaving its type and
    /// length bound as they are.
    pub fn transform_variable_command(&self, var: &crate::stub::Var) -> (r: crate::stub::Var)
        ensures
            r@.name == transform_of(self@, var@.name),
            r@.var_type == var@.var_type,
            r@.max_length == var@.max_length,
    {
        crate::stub::Var {
            name: self.transform_variable_name(var.name.as_str()),
            var_type: var.var_type,
            max_length: var.max_length,
        }
    }

    /// Prefixes the identifier with an underscore when it is one of this
    /// language's reserved keywords.
    pub fn escape_keywords(&self, variable_name: String) -> (r: String)
        ensures
            r@ == escape_of(self@.keywords, variable_name@),
    {
        let n = self.keywords.len();
        let mut i: usize = 0;
        while i < n
            invariant
                n == self.keywords.len(),
                0 <= i <= n,
                forall|j: int| 0 <= j < i ==> self@.keywords[j] != variable_name@,
            decreases n - i,
        {
            if str_eq(self.keywords[i].as_str(), variable_name.as_str()) {
                assert(self@.keywords.contains(variable_name@)) by {
                    assert(self@.keywords[i as int] == variable_name@);
                }
                let mut r = String::from_str("_");
                r.append(variable_name.as_str());
                proof {
                    reveal_strlit("_");
                    assert("_"@ =~= seq!['_']);
                }
                return r;
            }
            i = i + 1;
        }
        proof {
            if self@.keywords.contains(variable_name@) {
                let j = choose|j: int|
                    0 <= j < self@.keywords.len() && self@.keywords[j] == variable_name@;
                assert(false);
            }
        }
        variable_name
    }

    /// The file-system pattern under which this language's template sources
    /// live.
    pub fn template_glob(&self) -> (r: String)
        ensures
            r@ == "config/stub_templates/"@ + self.name@ + "/*."@ + self.source_file_ext@
                + ".jinja"@,
    {
        let mut s = String::from_str("config/stub_templates/");
        s.append(self.name.as_str());
        s.append("/*.");
        s.append(self.source_file_ext.as_str());
        s.append(".jinja");
        s
    }
}


// ---------------------------------------------------------------------------
// Laws of the casing transformer.
// ---------------------------------------------------------------------------

pub open spec fn is_alnum_char(c: char) -> bool {
    is_lower_char(c) || is_upper_char(c) || is_digit_char(c)
}

/// Facts about the lowercase map: it never yields an uppercase letter or
/// an underscore (unless given one), and it is idempotent.
pub proof fn lemma_lower_char_props(c: char)
    ensures
        !is_upper_char(to_lower_char(c)),
        c != '_' ==> to_lower_char(c) != '_',
        to_lower_char(to_lower_char(c)) == to_lower_char(c),
        !is_lower_char(to_upper_char(c)),
        to_upper_char(to_upper_char(c)) == to_upper_char(c),
{
    if is_upper_char(c) {
        assert(to_lower_char(c) as int == c as int + 32);
    }
    if is_lower_char(c) {
        assert(to_upper_char(c) as int == c as int - 32);
    }
}

/// The word segmentation of an identifier: a new word starts at every
/// lowercase-to-uppercase boundary.
pub open spec fn words_of(s: Seq<char>) -> Seq<Seq<char>>
    decreases s.len(),
{
    if s.len() == 0 {
        seq![Seq::<char>::empty()]
    } else if s.len() == 1 {
        seq![s]
    } else {
        let r = words_of(s.drop_last());
        if is_lower_char(s[s.len() - 2]) && is_upper_char(s.last()) {
            r.push(seq![s.last()])
        } else {
            r.drop_last().push(r.last().push(s.last()))
        }
    }
}

pub proof fn lemma_words_of_nonempty(s: Seq<char>)
    ensures
        words_of(s).len() >= 1,
    decreases s.len(),
{
    if s.len() > 1 {
        lemma_words_of_nonempty(s.drop_last());
    }
}

/// Splitting a sequence extended by the separator gains one empty segment.
pub proof fn lemma_split_snoc_sep(s: Seq<char>, sep: char)
    ensures
        split_char(s.push(sep), sep) == split_char(s, sep).push(Seq::<char>::empty()),
    decreases s.len(),
{
    crate::text::lemma_split_char_nonempty(s, sep);
    if s.len() == 0 {
        assert(s.push(sep)[0] == sep);
        assert(s.push(sep).drop_first() =~= s);
        assert(split_char(s.push(sep), sep) =~= split_char(s, sep).push(Seq::<char>::empty()));
    } else {
        lemma_split_snoc_sep(s.drop_first(), sep);
        assert(s.push(sep).drop_first() =~= s.drop_first().push(sep));
        assert(s.push(sep)[0] == s[0]);
        let r = split_char(s.drop_first(), sep);
        crate::text::lemma_split_char_nonempty(s.drop_first(), sep);
        if s[0] == sep {
            assert(split_char(s.push(sep), sep) =~= split_char(s, sep).push(
                Seq::<char>::empty(),
            ));
        } else {
            assert(r.push(Seq::<char>::empty())[0] == r[0]);
            assert(r.push(Seq::<char>::empty()).drop_first() =~= r.drop_first().push(
                Seq::<char>::empty(),
            ));
            assert(split_char(s.push(sep), sep) =~= split_char(s, sep).push(
                Seq::<char>::empty(),
            ));
        }
    }
}

/// Splitting a sequence extended by a non-separator extends the last
/// segment.
pub proof fn lemma_split_snoc(s: Seq<char>, sep: char, c: char)
    requires
        c != sep,
    ensures
        split_char(s.push(c), sep) == split_char(s, sep).drop_last().push(
            split_char(s, sep).last().push(c),
        ),
    decreases s.len(),
{
    crate::text::lemma_split_char_nonempty(s, sep);
    if s.len() == 0 {
        assert(s.push(c)[0] == c);
        assert(s.push(c).drop_first() =~= s);
        assert(split_char(s.push(c), sep) =~= seq![seq![c]]);
        assert(split_char(s, sep).drop_last().push(split_char(s, sep).last().push(c))
            =~= seq![seq![c]]);
    } else {
        lemma_split_snoc(s.drop_first(), sep, c);
        assert(s.push(c).drop_first() =~= s.drop_first().push(c));
        assert(s.push(c)[0] == s[0]);
        let r = split_char(s.drop_first(), sep);
        crate::text::lemma_split_char_nonempty(s.drop_first(), sep);
        if s[0] == sep {
            assert(split_char(s, sep) == seq![Seq::<char>::empty()] + r);
            assert(split_char(s, sep).last() == r.last());
            assert(split_char(s.push(c), sep) =~= split_char(s, sep).drop_last().push(
                split_char(s, sep).last().push(c),
            ));
        } else {
            if r.len() == 1 {
                assert(split_char(s, sep) =~= seq![seq![s[0]] + r[0]]);
                assert(split_char(s.push(c), sep) =~= seq![seq![s[0]] + r.drop_last().push(
                    r.last().push(c),
                )[0]] + r.drop_last().push(r.last().push(c)).drop_first());
                assert(r.drop_last().push(r.last().push(c))[0] =~= r[0].push(c));
                assert(seq![s[0]] + r[0].push(c) =~= (seq![s[0]] + r[0]).push(c));
                assert(split_char(s.push(c), sep) =~= split_char(s, sep).drop_last().push(
                    split_char(s, sep).last().push(c),
                ));
            } else {
                assert(split_char(s, sep) == seq![seq![s[0]] + r[0]] + r.drop_first());
                assert(split_char(s, sep).last() == r.last());
                assert(r.drop_last().push(r.last().push(c))[0] == r[0]);
                assert(r.drop_last().push(r.last().push(c)).drop_first() =~= r.drop_first().drop_last().push(r.last().push(c)));
                assert(split_char(s.push(c), sep) =~= seq![seq![s[0]] + r[0]]
                    + r.drop_first().drop_last().push(r.last().push(c)));
                assert(split_char(s, sep).drop_last() =~= seq![seq![s[0]] + r[0]]
                    + r.drop_first().drop_last());
                assert(split_char(s, sep).drop_last().push(split_char(s, sep).last().push(c))
                    =~= seq![seq![s[0]] + r[0]] + r.drop_first().drop_last().push(
                    r.last().push(c),
                ));
            }
        }
    }
}

/// Casing round trip: for an identifier of alphanumeric characters,
/// converting to snake case and splitting on underscores recovers the
/// identifier's word segmentation, lowercased.
pub proof fn lemma_casing_round_trip(s: Seq<char>)
    requires
        forall|i: int| 0 <= i < s.len() ==> is_alnum_char(#[trigger] s[i]),
    ensures
        split_char(snake_of(s), '_') == words_of(s).map_values(|w: Seq<char>| lower_seq(w)),
    decreases s.len(),
{
    let target = words_of(s).map_values(|w: Seq<char>| lower_seq(w));
    if s.len() == 0 {
        assert(snake_of(s) =~= Seq::<char>::empty());
        assert(lower_seq(Seq::<char>::empty()) =~= Seq::<char>::empty());
        assert(split_char(snake_of(s), '_') =~= target);
    } else if s.len() == 1 {
        assert(snake_sep(s) == s);
        assert(snake_of(s) =~= seq![to_lower_char(s[0])]);
        lemma_lower_char_props(s[0]);
        assert(snake_of(s)[0] != '_');
        assert(snake_of(s).drop_first() =~= Seq::<char>::empty());
        let rest = split_char(Seq::<char>::empty(), '_');
        assert(rest == seq![Seq::<char>::empty()]);
        assert(split_char(snake_of(s), '_') == seq![seq![snake_of(s)[0]] + rest[0]]
            + rest.drop_first());
        assert(seq![snake_of(s)[0]] + rest[0] =~= snake_of(s));
        assert(rest.drop_first() =~= Seq::<Seq<char>>::empty());
        assert(split_char(snake_of(s), '_') =~= seq![snake_of(s)]);
        assert(target =~= seq![lower_seq(s)]);
        assert(lower_seq(s) =~= seq![to_lower_char(s[0])]);
    } else {
        let t = s.drop_last();
        let c = s.last();
        assert(forall|i: int| 0 <= i < t.len() ==> is_alnum_char(#[trigger] t[i])) by {
            assert(forall|i: int| 0 <= i < t.len() ==> t[i] == #[trigger] s[i]);
        }
        lemma_casing_round_trip(t);
        lemma_lower_char_props(c);
        lemma_words_of_nonempty(t);
        let lc = to_lower_char(c);
        assert(is_alnum_char(c));
        assert(lc != '_');
        if is_lower_char(s[s.len() - 2]) && is_upper_char(c) {
            assert(snake_sep(s) == snake_sep(t) + seq!['_', c]);
            assert(snake_of(s) =~= snake_of(t).push('_').push(lc)) by {
                assert(lower_seq(snake_sep(t) + seq!['_', c]) =~= lower_seq(snake_sep(t))
                    + seq![to_lower_char('_'), lc]);
            }
            lemma_split_snoc_sep(snake_of(t), '_');
            lemma_split_snoc(snake_of(t).push('_'), '_', lc);
            crate::text::lemma_split_char_nonempty(snake_of(t), '_');
            assert(split_char(snake_of(s), '_') =~= split_char(snake_of(t), '_').push(
                seq![lc],
            )) by {
                assert(split_char(snake_of(t), '_').push(Seq::<char>::empty()).last().push(lc)
                    =~= seq![lc]);
                assert(split_char(snake_of(t), '_').push(Seq::<char>::empty()).drop_last()
                    =~= split_char(snake_of(t), '_'));
            }
            assert(words_of(s) == words_of(t).push(seq![c]));
            assert(target =~= split_char(snake_of(t), '_').push(seq![lc])) by {
                assert(lower_seq(seq![c]) =~= seq![lc]);
            }
        } else {
            assert(snake_sep(s) == snake_sep(t) + seq![c]);
            assert(snake_of(s) =~= snake_of(t).push(lc)) by {
                assert(lower_seq(snake_sep(t) + seq![c]) =~= lower_seq(snake_sep(t)) + seq![lc]);
            }
            lemma_split_snoc(snake_of(t), '_', lc);
            crate::text::lemma_split_char_nonempty(snake_of(t), '_');
            assert(words_of(s) == words_of(t).drop_last().push(words_of(t).last().push(c)));
            assert(target =~= split_char(snake_of(t), '_').drop_last().push(
                split_char(snake_of(t), '_').last().push(lc),
            )) by {
                assert(target.len() == words_of(t).len());
                assert(forall|i: int|
                    0 <= i < words_of(t).len() - 1 ==> target[i] == lower_seq(
                        #[trigger] words_of(t)[i],
                    ));
                assert(target.last() == lower_seq(words_of(t).last().push(c)));
                assert(lower_seq(words_of(t).last().push(c)) =~= lower_seq(
                    words_of(t).last(),
                ).push(lc));
                assert(split_char(snake_of(t), '_').last() == lower_seq(words_of(t).last()));
                assert(forall|i: int|
                    0 <= i < words_of(t).len() - 1 ==> split_char(snake_of(t), '_')[i]
                        == lower_seq(#[trigger] words_of(t)[i]));
            }
        }
    }
}

/// No sequence without uppercase letters has a word boundary.
pub proof fn lemma_no_upper_snake_sep(s: Seq<char>)
    requires
        forall|i: int| 0 <= i < s.len() ==> !is_upper_char(#[trigger] s[i]),
    ensures
        snake_sep(s) == s,
    decreases s.len(),
{
    if s.len() > 1 {
        assert(forall|i: int|
            0 <= i < s.drop_last().len() ==> s.drop_last()[i] == #[trigger] s[i]);
        lemma_no_upper_snake_sep(s.drop_last());
        assert(snake_sep(s) =~= s);
    }
}

/// Lowercasing a sequence without uppercase letters changes nothing.
pub proof fn lemma_no_upper_lower_seq(s: Seq<char>)
    requires
        forall|i: int| 0 <= i < s.len() ==> !is_upper_char(#[trigger] s[i]),
    ensures
        lower_seq(s) == s,
{
    assert(lower_seq(s) =~= s);
}

/// Snake-case conversion never leaves an uppercase letter.
pub proof fn lemma_snake_no_upper(s: Seq<char>)
    ensures
        forall|i: int| 0 <= i < snake_of(s).len() ==> !is_upper_char(#[trigger] snake_of(s)[i]),
{
    assert forall|i: int| 0 <= i < snake_of(s).len() implies !is_upper_char(
        #[trigger] snake_of(s)[i],
    ) by {
        lemma_lower_char_props(snake_sep(s)[i]);
    }
}

/// Converting to snake case twice equals converting once.
pub proof fn lemma_snake_idempotent(s: Seq<char>)
    ensures
        snake_of(snake_of(s)) == snake_of(s),
{
    lemma_snake_no_upper(s);
    lemma_no_upper_snake_sep(snake_of(s));
    lemma_no_upper_lower_seq(snake_of(s));
}

/// No two adjacent uppercase letters immediately followed by a lowercase
/// letter: the shape the first normalization pass establishes.
pub open spec fn no_acronym_break(x: Seq<char>) -> bool {
    forall|i: int|
        0 <= i && i + 2 < x.len() ==> !(is_upper_char(#[trigger] x[i]) && is_upper_char(x[i + 1])
            && is_lower_char(x[i + 2]))
}

pub proof fn lemma_nab_suffix(x: Seq<char>, j: int)
    requires
        no_acronym_break(x),
        0 <= j <= x.len(),
    ensures
        no_acronym_break(x.skip(j)),
{
    assert forall|i: int|
        0 <= i && i + 2 < x.skip(j).len() implies !(is_upper_char(#[trigger] x.skip(j)[i])
        && is_upper_char(x.skip(j)[i + 1]) && is_lower_char(x.skip(j)[i + 2])) by {
        assert(x.skip(j)[i] == x[i + j]);
        assert(x.skip(j)[i + 1] == x[i + j + 1]);
        assert(x.skip(j)[i + 2] == x[i + j + 2]);
    }
}

/// Every letter of the maximal uppercase run is uppercase, and the first
/// character after it, if any, is not.
pub proof fn lemma_upper_run_shape(s: Seq<char>)
    ensures
        forall|j: int| 0 <= j < upper_run(s) ==> is_upper_char(#[trigger] s[j]),
        upper_run(s) < s.len() ==> !is_upper_char(s[upper_run(s)]),
    decreases s.len(),
{
    lemma_upper_run_le(s);
    if s.len() > 0 && is_upper_char(s[0]) {
        lemma_upper_run_shape(s.drop_first());
        lemma_upper_run_le(s.drop_first());
        assert forall|j: int| 0 <= j < upper_run(s) implies is_upper_char(#[trigger] s[j]) by {
            if j >= 1 {
                assert(s[j] == s.drop_first()[j - 1]);
                assert(is_upper_char(s.drop_first()[j - 1]));
            }
        }
        if upper_run(s) < s.len() {
            assert(s[upper_run(s)] == s.drop_first()[upper_run(s.drop_first())]);
        }
    }
}

/// Every letter of the maximal trailing uppercase run is uppercase, and
/// the character before it, if any, is not.
pub proof fn lemma_trailing_run_shape(s: Seq<char>)
    ensures
        forall|j: int| s.len() - trailing_run(s) <= j < s.len() ==> is_upper_char(#[trigger] s[j]),
        trailing_run(s) < s.len() ==> !is_upper_char(s[s.len() - trailing_run(s) - 1]),
    decreases s.len(),
{
    lemma_trailing_run_le(s);
    if s.len() > 0 && is_upper_char(s.last()) {
        lemma_trailing_run_shape(s.drop_last());
        lemma_trailing_run_le(s.drop_last());
        assert forall|j: int|
            s.len() - trailing_run(s) <= j < s.len() implies is_upper_char(
            #[trigger] s[j],
        ) by {
            if j < s.len() - 1 {
                assert(s[j] == s.drop_last()[j]);
                assert(is_upper_char(s.drop_last()[j]));
            }
        }
        if trailing_run(s) < s.len() {
            assert(s[s.len() - trailing_run(s) - 1] == s.drop_last()[s.len() - trailing_run(s)
                - 1]);
        }
    }
}

/// The first normalization pass keeps the length.
pub proof fn lemma_break_runs_len(s: Seq<char>)
    ensures
        break_runs(s).len() == s.len(),
    decreases s.len(),
{
    if s.len() > 0 {
        let r = upper_run(s);
        lemma_upper_run_le(s);
        let m = if r > s.len() { s.len() as int } else { r };
        if m >= 1 && m < s.len() && is_lower_char(s[m]) {
            lemma_break_runs_len(s.skip(m + 1));
        } else if m >= 1 {
            lemma_break_runs_len(s.skip(m));
        } else {
            lemma_break_runs_len(s.drop_first());
        }
    }
}

/// A sequence that does not open with an uppercase letter keeps its first
/// character through the first normalization pass.
pub proof fn lemma_break_runs_first(s: Seq<char>)
    requires
        s.len() > 0,
        !is_upper_char(s[0]),
    ensures
        break_runs(s).len() == s.len(),
        break_runs(s)[0] == s[0],
{
    lemma_break_runs_len(s);
    assert(upper_run(s) == 0);
}

/// The first normalization pass leaves no uppercase run of two or more
/// letters immediately followed by a lowercase letter.
pub proof fn lemma_break_runs_nab(s: Seq<char>)
    ensures
        no_acronym_break(break_runs(s)),
    decreases s.len(),
{
    if s.len() == 0 {
    } else {
        let r = upper_run(s);
        lemma_upper_run_le(s);
        lemma_upper_run_shape(s);
        let m = if r > s.len() { s.len() as int } else { r };
        let out = break_runs(s);
        lemma_break_runs_len(s);
        if m >= 1 && m < s.len() && is_lower_char(s[m]) {
            let rec = break_runs(s.skip(m + 1));
            lemma_break_runs_nab(s.skip(m + 1));
            lemma_break_runs_len(s.skip(m + 1));
            assert(out == lower_seq(s.take(m - 1)) + seq![s[m - 1], s[m]] + rec);
            assert forall|i: int|
                0 <= i && i + 2 < out.len() implies !(is_upper_char(#[trigger] out[i])
                && is_upper_char(out[i + 1]) && is_lower_char(out[i + 2])) by {
                if i < m - 1 {
                    assert(out[i] == to_lower_char(s.take(m - 1)[i]));
                    lemma_lower_char_props(s.take(m - 1)[i]);
                } else if i == m - 1 {
                    assert(out[i + 1] == s[m]);
                    assert(!is_upper_char(s[m]));
                } else if i == m {
                    assert(out[i] == s[m]);
                    assert(!is_upper_char(s[m]));
                } else {
                    assert(out[i] == rec[i - m - 1]);
                    assert(out[i + 1] == rec[i - m]);
                    assert(out[i + 2] == rec[i - m + 1]);
                }
            }
        } else if m >= 1 {
            let rec = break_runs(s.skip(m));
            lemma_break_runs_nab(s.skip(m));
            lemma_break_runs_len(s.skip(m));
            assert(out == s.take(m) + rec);
            assert forall|i: int|
                0 <= i && i + 2 < out.len() implies !(is_upper_char(#[trigger] out[i])
                && is_upper_char(out[i + 1]) && is_lower_char(out[i + 2])) by {
                if i + 2 < m {
                    assert(out[i + 2] == s[i + 2]);
                    assert(is_upper_char(s[i + 2]));
                    lemma_lower_char_props(s[i + 2]);
                    assert(!is_lower_char(s[i + 2])) by {
                        assert(is_upper_char(s[i + 2]));
                    }
                } else if i + 2 == m {
                    // out[m] is the first character after the run
                    assert(m < s.len());
                    assert(!is_upper_char(s.skip(m)[0]));
                    lemma_break_runs_first(s.skip(m));
                    assert(out[i + 2] == s[m]);
                    assert(!is_lower_char(s[m]));
                } else if i + 1 == m {
                    assert(m < s.len());
                    assert(!is_upper_char(s.skip(m)[0]));
                    lemma_break_runs_first(s.skip(m));
                    assert(out[i + 1] == s[m]);
                } else if i == m {
                    assert(out[i] == rec[0]);
                    assert(out[i + 1] == rec[1]);
                    assert(out[i + 2] == rec[2]);
                } else if i > m {
                    assert(out[i] == rec[i - m]);
                    assert(out[i + 1] == rec[i - m + 1]);
                    assert(out[i + 2] == rec[i - m + 2]);
                }
            }
        } else {
            let rec = break_runs(s.drop_first());
            lemma_break_runs_nab(s.drop_first());
            lemma_break_runs_len(s.drop_first());
            assert(out == seq![s[0]] + rec);
            assert forall|i: int|
                0 <= i && i + 2 < out.len() implies !(is_upper_char(#[trigger] out[i])
                && is_upper_char(out[i + 1]) && is_lower_char(out[i + 2])) by {
                if i >= 1 {
                    assert(out[i] == rec[i - 1]);
                    assert(out[i + 1] == rec[i]);
                    assert(out[i + 2] == rec[i + 1]);
                }
            }
        }
    }
}

/// The second normalization pass leaves the first pass's shape intact and
/// at most one trailing uppercase letter.
pub proof fn lemma_lower_trailing_shape(y: Seq<char>)
    requires
        no_acronym_break(y),
    ensures
        no_acronym_break(lower_trailing(y)),
        trailing_run(lower_trailing(y)) <= 1,
        lower_trailing(y).len() == y.len(),
{
    let n = y.len() as int;
    let t = trailing_run(y);
    lemma_trailing_run_le(y);
    lemma_trailing_run_shape(y);
    let k = if t > n { n } else { t };
    let z = lower_trailing(y);
    if k == 0 {
        if n > 0 {
            assert(!is_upper_char(y.last()));
        }
    } else {
        assert(z == y.take(n - k) + seq![y[n - k]] + lower_seq(y.skip(n - k + 1)));
        assert(z.len() == n);
        assert forall|j: int| 0 <= j < n implies #[trigger] z[j] == (if j <= n - k {
            y[j]
        } else {
            to_lower_char(y[j])
        }) by {
            if j < n - k {
                assert(z[j] == y.take(n - k)[j]);
            } else if j == n - k {
            } else {
                assert(z[j] == lower_seq(y.skip(n - k + 1))[j - (n - k + 1)]);
            }
        }
        // at most one trailing uppercase letter stays
        if k == 1 {
            assert(z[n - 1] == y[n - 1]);
            if n >= 2 {
                assert(!is_upper_char(y[n - 2]));
                assert(z.drop_last() =~= y.take(n - 1));
                assert(trailing_run(z.drop_last()) == 0) by {
                    if n - 1 > 0 {
                        assert(y.take(n - 1).last() == y[n - 2]);
                    }
                }
            } else {
                assert(z.drop_last() =~= y.take(0));
            }
            assert(trailing_run(z) <= 1);
        } else {
            assert(z[n - 1] == to_lower_char(y[n - 1]));
            lemma_lower_char_props(y[n - 1]);
            assert(trailing_run(z) == 0);
        }
        // the shape survives: only uppercase letters were lowercased
        assert forall|i: int|
            0 <= i && i + 2 < z.len() implies !(is_upper_char(#[trigger] z[i]) && is_upper_char(
            z[i + 1],
        ) && is_lower_char(z[i + 2])) by {
            if is_upper_char(z[i]) && is_upper_char(z[i + 1]) {
                lemma_lower_char_props(y[i]);
                lemma_lower_char_props(y[i + 1]);
                assert(i + 1 <= n - k);
                if i + 2 <= n - k {
                    assert(z[i + 2] == y[i + 2]);
                } else {
                    assert(i + 2 == n - k + 1);
                    assert(i == n - k - 1);
                    assert(is_upper_char(y[n - k - 1]));
                    assert(false);
                }
            }
        }
    }
}

/// On its own output shape the first normalization pass changes nothing.
pub proof fn lemma_break_runs_fixed(x: Seq<char>)
    requires
        no_acronym_break(x),
    ensures
        break_runs(x) == x,
    decreases x.len(),
{
    if x.len() > 0 {
        let r = upper_run(x);
        lemma_upper_run_le(x);
        lemma_upper_run_shape(x);
        let m = if r > x.len() { x.len() as int } else { r };
        if m >= 1 && m < x.len() && is_lower_char(x[m]) {
            assert(m == 1) by {
                if m >= 2 {
                    assert(is_upper_char(x[m - 2]) && is_upper_char(x[m - 1]) && is_lower_char(
                        x[m],
                    ));
                    assert(false);
                }
            }
            lemma_nab_suffix(x, 2);
            lemma_break_runs_fixed(x.skip(2));
            assert(lower_seq(x.take(0)) =~= Seq::<char>::empty());
            assert(break_runs(x) =~= x);
        } else if m >= 1 {
            lemma_nab_suffix(x, m);
            lemma_break_runs_fixed(x.skip(m));
            assert(break_runs(x) =~= x);
        } else {
            lemma_nab_suffix(x, 1);
            assert(x.drop_first() =~= x.skip(1));
            lemma_break_runs_fixed(x.skip(1));
            assert(break_runs(x) =~= x);
        }
    }
}

/// With at most one trailing uppercase letter the second pass changes
/// nothing.
pub proof fn lemma_lower_trailing_fixed(x: Seq<char>)
    requires
        trailing_run(x) <= 1,
    ensures
        lower_trailing(x) == x,
{
    let n = x.len() as int;
    let t = trailing_run(x);
    lemma_trailing_run_le(x);
    if t == 1 {
        assert(lower_trailing(x) == x.take(n - 1) + seq![x[n - 1]] + lower_seq(x.skip(n)));
        assert(lower_seq(x.skip(n)) =~= Seq::<char>::empty());
        assert(x.take(n - 1) + seq![x[n - 1]] + lower_seq(x.skip(n)) =~= x);
    }
}

/// The whole tail normalization is idempotent.
pub proof fn lemma_pascalize_idempotent(s: Seq<char>)
    ensures
        pascalize_of(pascalize_of(s)) == pascalize_of(s),
{
    lemma_break_runs_nab(s);
    lemma_lower_trailing_shape(break_runs(s));
    let p = pascalize_of(s);
    lemma_break_runs_fixed(p);
    lemma_lower_trailing_fixed(p);
}

/// Applying the same conversion twice equals applying it once.
pub proof fn lemma_convert_idempotent(f: VariableNameFormat, s: Seq<char>)
    ensures
        convert_of(f, convert_of(f, s)) == convert_of(f, s),
{
    match f {
        VariableNameFormat::SnakeCase => {
            lemma_snake_idempotent(s);
        },
        VariableNameFormat::PascalCase => {
            if s.len() > 0 {
                let once = pascal_of(s);
                let tail = s.drop_first();
                lemma_pascalize_idempotent(tail);
                assert(once == seq![to_upper_char(s[0])] + pascalize_of(tail));
                assert(once.len() > 0);
                assert(once.drop_first() =~= pascalize_of(tail));
                lemma_lower_char_props(s[0]);
                assert(to_upper_char(once[0]) == to_upper_char(s[0]));
                assert(pascal_of(once) =~= once);
            }
        },
        VariableNameFormat::CamelCase => {
            if s.len() > 0 {
                let once = camel_of(s);
                let tail = s.drop_first();
                lemma_pascalize_idempotent(tail);
                assert(once == seq![to_lower_char(s[0])] + pascalize_of(tail));
                assert(once.drop_first() =~= pascalize_of(tail));
                lemma_lower_char_props(s[0]);
                assert(to_lower_char(once[0]) == to_lower_char(s[0]));
                assert(camel_of(once) =~= once);
            }
        },
    }
}

/// Uppercase passthrough: an all-uppercase identifier bypasses the naming
/// convention; it is kept verbatim unless the language forbids uppercase
/// variables, in which case it is lowercased, whatever the declared
/// variable format.
pub proof fn lemma_uppercase_passthrough(l: LanguageModel, s: Seq<char>)
    requires
        is_upper_string(s),
    ensures
        l.allow_uppercase_vars != Some(false) ==> case_stage(l, s) == s,
        l.allow_uppercase_vars == Some(false) ==> case_stage(l, s) == lower_seq(s),
{
}

/// Keyword escaping: exactly the reserved identifiers gain one leading
/// underscore; every other identifier passes through unchanged.
pub proof fn lemma_keyword_escaping(keywords: Seq<Seq<char>>, s: Seq<char>)
    ensures
        keywords.contains(s) ==> escape_of(keywords, s) == seq!['_'] + s,
        !keywords.contains(s) ==> escape_of(keywords, s) == s,
{
}


// ---------------------------------------------------------------------------
// Finding a language by name or alias.
// ---------------------------------------------------------------------------

/// Does this configuration list `name` among its aliases?
pub open spec fn has_alias(l: LanguageModel, name: Seq<char>) -> bool {
    match l.aliases {
        Some(aliases) => aliases.contains(name),
        None => false,
    }
}

/// The index of the first configuration named `name`.
pub open spec fn found_by_name(ls: Seq<LanguageModel>, name: Seq<char>) -> Option<int>
    decreases ls.len(),
{
    if ls.len() == 0 {
        None
    } else if ls[0].name == name {
        Some(0)
    } else {
        match found_by_name(ls.drop_first(), name) {
            Some(i) => Some(i + 1),
            None => None,
        }
    }
}

/// The index of the first configuration that lists `name` as an alias.
pub open spec fn found_by_alias(ls: Seq<LanguageModel>, name: Seq<char>) -> Option<int>
    decreases ls.len(),
{
    if ls.len() == 0 {
        None
    } else if has_alias(ls[0], name) {
        Some(0)
    } else {
        match found_by_alias(ls.drop_first(), name) {
            Some(i) => Some(i + 1),
            None => None,
        }
    }
}

/// Which configuration a (lowercased) language name selects: the first
/// whose name matches, else the first that lists it as an alias.
pub open spec fn spec_find_language(ls: Seq<LanguageModel>, name: Seq<char>) -> Option<int> {
    let low = lower_seq(name);
    match found_by_name(ls, low) {
        Some(i) => Some(i),
        None => found_by_alias(ls, low),
    }
}

/// Does the list hold this exact string?
fn vec_contains_str(v: &Vec<String>, target: &str) -> (r: bool)
    ensures
        r == v@.map_values(|s: String| s@).contains(target@),
{
    let n = v.len();
    let mut i: usize = 0;
    while i < n
        invariant
            n == v.len(),
            0 <= i <= n,
            forall|j: int| 0 <= j < i ==> (#[trigger] v@[j])@ != target@,
        decreases n - i,
    {
        if str_eq(v[i].as_str(), target) {
            assert(v@.map_values(|s: String| s@)[i as int] == target@);
            return true;
        }
        i = i + 1;
    }
    proof {
        let mseq = v@.map_values(|s: String| s@);
        if mseq.contains(target@) {
            let j = choose|j: int| 0 <= j < mseq.len() && mseq[j] == target@;
            assert(v@[j]@ == target@);
            assert(false);
        }
    }
    false
}

/// Selects the configuration a requested language name refers to. The
/// request is lowercased first; a configuration found by its own name wins
/// over one found through an alias.
pub fn find_language(name: &str, langs: &Vec<Language>) -> (r: Option<usize>)
    ensures
        (match r {
            Some(i) => Some(i as int),
            None => None,
        }) == spec_find_language(langs@.map_values(|l: Language| l@), name@),
{
    let ghost ls = langs@.map_values(|l: Language| l@);
    let nv = chars_vec(name);
    let low = lower_range(&nv, 0, nv.len());
    proof {
        assert(nv@.subrange(0, nv@.len() as int) =~= nv@);
    }
    let low_str = chars_to_string(&low);
    let n = langs.len();
    let mut i: usize = 0;
    proof {
        assert(ls.skip(0) =~= ls);
    }
    while i < n
        invariant
            n == langs.len(),
            0 <= i <= n,
            ls == langs@.map_values(|l: Language| l@),
            low@ == lower_seq(name@),
            low_str@ == low@,
            found_by_name(ls, low@) == (match found_by_name(ls.skip(i as int), low@) {
                Some(j) => Some(j + i),
                None => None::<int>,
            }),
        decreases n - i,
    {
        proof {
            assert(ls.skip(i as int)[0] == ls[i as int]);
            assert(ls.skip(i as int).drop_first() =~= ls.skip(i + 1));
        }
        if str_eq(langs[i].name.as_str(), low_str.as_str()) {
            return Some(i);
        }
        i = i + 1;
    }
    proof {
        assert(ls.skip(n as int).len() == 0);
        assert(ls.skip(0) =~= ls);
    }
    let mut i: usize = 0;
    while i < n
        invariant
            n == langs.len(),
            0 <= i <= n,
            ls == langs@.map_values(|l: Language| l@),
            low@ == lower_seq(name@),
            low_str@ == low@,
            found_by_name(ls, low@) is None,
            found_by_alias(ls, low@) == (match found_by_alias(ls.skip(i as int), low@) {
                Some(j) => Some(j + i),
                None => None::<int>,
            }),
        decreases n - i,
    {
        proof {
            assert(ls.skip(i as int)[0] == ls[i as int]);
            assert(ls.skip(i as int).drop_first() =~= ls.skip(i + 1));
        }
        let matched = match &langs[i].aliases {
            Some(aliases) => vec_contains_str(aliases, low_str.as_str()),
            None => false,
        };
        proof {
            assert(matched == has_alias(ls[i as int], low@));
        }
        if matched {
            return Some(i);
        }
        i = i + 1;
    }
    proof {
        assert(ls.skip(n as int).len() == 0);
    }
    None
}

} // verus!
