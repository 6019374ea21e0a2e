//! The command renderer: walks a parsed stub and emits target-language
//! text through the tera template engine. The engine, its contexts and the
//! JSON values handed to it stay behind trusted declarations; everything
//! the renderer decides — which template is asked for, what the context
//! holds, how per-command output is normalized and joined — is verified.
use vstd::prelude::*;
use vstd::string::StringExecFns;

use crate::stub::language::{
    Language, LanguageModel, TypeTokens, TypeTokensModel, VariableNameFormat, transform_of,
};
use crate::stub::{Cmd, CmdModel, Stub, StubModel, Var, VarModel, VarType};
use crate::text::{
    chars_to_string, chars_vec, contains_seq, lines_exec, lines_of, replace_chars, replace_seq,
    trim_end_exec, trim_end_of,
};

verus! {

// ---------------------------------------------------------------------------
// Outside types.
// ---------------------------------------------------------------------------

#[verifier::external_type_specification]
#[verifier::external_body]
pub struct ExTera(tera::Tera);

#[verifier::external_type_specification]
#[verifier::external_body]
pub struct ExContext(tera::Context);

#[verifier::external_type_specification]
#[verifier::external_body]
pub struct ExValue(serde_json::Value);

// ---------------------------------------------------------------------------
// Ghost models of what the engine holds.
// ---------------------------------------------------------------------------

/// The mathematical content of one JSON value handed to a template.
pub enum JsonVal {
    Null,
    Num(int),
    Str(Seq<char>),
    Arr(Seq<JsonVal>),
    Obj(Map<Seq<char>, JsonVal>),
}

/// Which text filter is registered under the name "case".
pub enum CaseFilter {
    Snake,
    Mixed,
    Camel,
}

/// The content of a loaded template engine: its named template sources and
/// the registered "case" filter.
pub struct TeraModel {
    pub templates: Map<Seq<char>, Seq<char>>,
    pub case_filter: Option<CaseFilter>,
}

/// What a `tera::Tera` instance holds.
pub uninterp spec fn tera_model(t: tera::Tera) -> TeraModel;

/// What a `tera::Context` holds: its key-to-value bindings.
pub uninterp spec fn ctx_model(c: tera::Context) -> Map<Seq<char>, JsonVal>;

/// What a `serde_json::Value` holds.
pub uninterp spec fn json_model(v: serde_json::Value) -> JsonVal;

/// Whether tera's template compiler accepts this set of named sources;
/// compilation is a deterministic function of the sources.
pub uninterp spec fn tera_accepts(templates: Seq<(Seq<char>, Seq<char>)>) -> bool;

/// What `tera::Tera::render` returns for a template set, a template name
/// and a context, when no template reads the process environment: `None`
/// stands for a rendering error.
pub uninterp spec fn render_of(m: TeraModel, name: Seq<char>, ctx: Map<Seq<char>, JsonVal>) -> Option<
    Seq<char>,
>;

/// The name-to-source map a sequence of template pairs builds, later pairs
/// overriding earlier ones of the same name.
pub open spec fn templates_map(ts: Seq<(Seq<char>, Seq<char>)>) -> Map<Seq<char>, Seq<char>>
    decreases ts.len(),
{
    if ts.len() == 0 {
        Map::<Seq<char>, Seq<char>>::empty()
    } else {
        templates_map(ts.drop_last()).insert(ts.last().0, ts.last().1)
    }
}

/// No template source mentions tera's `get_env` function, so rendering
/// cannot read the process environment.
pub open spec fn env_free(ts: Seq<(Seq<char>, Seq<char>)>) -> bool {
    forall|i: int| 0 <= i < ts.len() ==> !contains_seq((#[trigger] ts[i]).1, "get_env"@)
}

/// `env_free`, stated of a built name-to-source map.
pub open spec fn env_free_map(tm: Map<Seq<char>, Seq<char>>) -> bool {
    forall|k: Seq<char>| tm.contains_key(k) ==> !contains_seq(#[trigger] tm[k], "get_env"@)
}

/// `env_free`, stated of a loaded engine.
pub open spec fn env_free_model(m: TeraModel) -> bool {
    env_free_map(m.templates)
}

/// Every source in the map built from an `env_free` sequence came from
/// that sequence, so the map is `env_free` too.
pub proof fn lemma_env_free_map(ts: Seq<(Seq<char>, Seq<char>)>)
    requires
        env_free(ts),
    ensures
        env_free_map(templates_map(ts)),
    decreases ts.len(),
{
    if ts.len() > 0 {
        assert(env_free(ts.drop_last())) by {
            assert(forall|i: int|
                0 <= i < ts.len() - 1 ==> ts.drop_last()[i] == #[trigger] ts[i]);
        }
        lemma_env_free_map(ts.drop_last());
        assert forall|k: Seq<char>| templates_map(ts).contains_key(k) implies !contains_seq(
            #[trigger] templates_map(ts)[k],
            "get_env"@,
        ) by {
            if k == ts.last().0 {
                assert(ts[ts.len() - 1].1 == ts.last().1);
                assert(templates_map(ts)[k] == ts.last().1);
            } else {
                assert(templates_map(ts.drop_last()).contains_key(k));
                assert(templates_map(ts)[k] == templates_map(ts.drop_last())[k]);
                assert(!contains_seq(templates_map(ts.drop_last())[k], "get_env"@));
            }
        }
    }
}

// ---------------------------------------------------------------------------
// Errors.
// ---------------------------------------------------------------------------

/// Why rendering failed.
#[derive(Clone, Debug, PartialEq, Eq)]
pub enum RenderError {
    /// The template sources did not compile into an engine.
    TemplateSet,
    /// The named template was missing or failed to evaluate.
    Template(String),
}

/// The ghost image of a `RenderError`.
pub enum RenderErrorModel {
    TemplateSet,
    Template(Seq<char>),
}

impl View for RenderError {
    type V = RenderErrorModel;

    open spec fn view(&self) -> RenderErrorModel {
        match self {
            RenderError::TemplateSet => RenderErrorModel::TemplateSet,
            RenderError::Template(name) => RenderErrorModel::Template(name@),
        }
    }
}

// ---------------------------------------------------------------------------
// Trusted wrappers around the engine.
// ---------------------------------------------------------------------------

/// Relies on `tera::Tera::default` and `tera::Tera::add_raw_templates`:
/// builds an engine holding exactly the given named sources, with no
/// filter registered yet; compiling is a deterministic function of the
/// sources, and a set that fails to compile is reported as an error.
#[verifier::external_body]
fn tera_from_templates(templates: &Vec<(String, String)>) -> (r: Result<tera::Tera, RenderError>)
    ensures
        (r is Ok) == tera_accepts(templates@.map_values(|p: (String, String)| (p.0@, p.1@))),
        r is Ok ==> tera_model(r->Ok_0) == (TeraModel {
            templates: templates_map(templates@.map_values(|p: (String, String)| (p.0@, p.1@))),
            case_filter: None,
        }),
        r is Err ==> r->Err_0 == RenderError::TemplateSet,
{
    let mut t = tera::Tera::default();
    match t.add_raw_templates(templates.iter().map(|p| (p.0.as_str(), p.1.as_str()))) {
        Ok(()) => Ok(t),
        Err(_) => Err(RenderError::TemplateSet),
    }
}

/// Relies on `tera::Tera::register_filter` and
/// `tera_text_filters::snake_case`: registers that deterministic filter
/// under the name "case".
#[verifier::external_body]
fn register_snake_case_filter(t: &mut tera::Tera)
    ensures
        tera_model(*final(t)) == (TeraModel {
            case_filter: Some(CaseFilter::Snake),
            ..tera_model(*old(t))
        }),
{
    t.register_filter(
        "case",
        tera_text_filters::snake_case::<std::collections::hash_map::RandomState>,
    );
}

/// Relies on `tera::Tera::register_filter` and
/// `tera_text_filters::mixed_case`: registers that deterministic filter
/// under the name "case".
#[verifier::external_body]
fn register_mixed_case_filter(t: &mut tera::Tera)
    ensures
        tera_model(*final(t)) == (TeraModel {
            case_filter: Some(CaseFilter::Mixed),
            ..tera_model(*old(t))
        }),
{
    t.register_filter(
        "case",
        tera_text_filters::mixed_case::<std::collections::hash_map::RandomState>,
    );
}

/// Relies on `tera::Tera::register_filter` and
/// `tera_text_filters::camel_case`: registers that deterministic filter
/// under the name "case".
#[verifier::external_body]
fn register_camel_case_filter(t: &mut tera::Tera)
    ensures
        tera_model(*final(t)) == (TeraModel {
            case_filter: Some(CaseFilter::Camel),
            ..tera_model(*old(t))
        }),
{
    t.register_filter(
        "case",
        tera_text_filters::camel_case::<std::collections::hash_map::RandomState>,
    );
}

/// The bindings of a context nothing was inserted into.
pub open spec fn empty_ctx() -> Map<Seq<char>, JsonVal> {
    Map::<Seq<char>, JsonVal>::empty()
}

/// Relies on `tera::Context::new`: an empty context.
#[verifier::external_body]
fn ctx_new() -> (r: tera::Context)
    ensures
        ctx_model(r) == empty_ctx(),
{
    tera::Context::new()
}

/// Relies on `tera::Context::insert`: binds the key to the string.
#[verifier::external_body]
fn ctx_insert_str(c: &mut tera::Context, key: &str, val: &str)
    ensures
        ctx_model(*final(c)) == ctx_model(*old(c)).insert(key@, JsonVal::Str(val@)),
{
    c.insert(key, val);
}

/// Relies on `tera::Context::insert`: binds the key to the list of
/// strings.
#[verifier::external_body]
fn ctx_insert_str_list(c: &mut tera::Context, key: &str, vals: &Vec<String>)
    ensures
        ctx_model(*final(c)) == ctx_model(*old(c)).insert(
            key@,
            JsonVal::Arr(vals@.map_values(|s: String| JsonVal::Str(s@))),
        ),
{
    c.insert(key, vals);
}

/// Relies on `tera::Context::insert`: binds the key to the list of JSON
/// values.
#[verifier::external_body]
fn ctx_insert_values(c: &mut tera::Context, key: &str, vals: &Vec<serde_json::Value>)
    ensures
        ctx_model(*final(c)) == ctx_model(*old(c)).insert(
            key@,
            JsonVal::Arr(vals@.map_values(|v: serde_json::Value| json_model(v))),
        ),
{
    c.insert(key, vals);
}

/// Relies on `tera::Context::insert`: binds the key to the JSON value.
#[verifier::external_body]
fn ctx_insert_value(c: &mut tera::Context, key: &str, val: &serde_json::Value)
    ensures
        ctx_model(*final(c)) == ctx_model(*old(c)).insert(key@, json_model(*val)),
{
    c.insert(key, val);
}

/// The record a read or loop-line template sees for one variable.
pub open spec fn var_record_model(
    name: Seq<char>,
    token: Option<Seq<char>>,
    len: Option<u64>,
) -> JsonVal {
    JsonVal::Obj(
        Map::<Seq<char>, JsonVal>::empty().insert("name"@, JsonVal::Str(name)).insert(
            "type_token"@,
            match token {
                Some(s) => JsonVal::Str(s),
                None => JsonVal::Null,
            },
        ).insert(
            "max_length"@,
            match len {
                Some(n) => JsonVal::Num(n as int),
                None => JsonVal::Null,
            },
        ),
    )
}

/// Relies on `serde_json`'s map and value constructors: builds the
/// per-variable record `{name, type_token, max_length}`, with `null`
/// standing for an absent token or bound.
#[verifier::external_body]
fn make_var_record(name: &str, token: &Option<String>, len: &Option<u64>) -> (r: serde_json::Value)
    ensures
        json_model(r) == var_record_model(
            name@,
            match token {
                Some(s) => Some(s@),
                None => None,
            },
            *len,
        ),
{
    let mut m = serde_json::Map::new();
    m.insert("name".to_string(), serde_json::Value::String(name.to_string()));
    m.insert(
        "type_token".to_string(),
        serde_json::to_value(token).unwrap_or(serde_json::Value::Null),
    );
    m.insert(
        "max_length".to_string(),
        serde_json::to_value(len).unwrap_or(serde_json::Value::Null),
    );
    serde_json::Value::Object(m)
}

pub open spec fn opt_json_str(o: Option<Seq<char>>) -> JsonVal {
    match o {
        Some(s) => JsonVal::Str(s),
        None => JsonVal::Null,
    }
}

/// The record a template sees for the whole type-token table.
pub open spec fn type_tokens_record(tt: TypeTokensModel) -> JsonVal {
    JsonVal::Obj(
        Map::<Seq<char>, JsonVal>::empty().insert("Int"@, opt_json_str(tt.int)).insert(
            "Float"@,
            opt_json_str(tt.float),
        ).insert("Long"@, opt_json_str(tt.long)).insert("Bool"@, opt_json_str(tt.bool)).insert(
            "Word"@,
            opt_json_str(tt.word),
        ).insert("String"@, opt_json_str(tt.string)),
    )
}

/// Relies on `serde_json`'s map and value constructors: builds the
/// type-token record keyed `Int`/`Float`/`Long`/`Bool`/`Word`/`String`,
/// with `null` standing for an absent token.
#[verifier::external_body]
fn make_type_tokens_value(tt: &TypeTokens) -> (r: serde_json::Value)
    ensures
        json_model(r) == type_tokens_record(tt@),
{
    let mut m = serde_json::Map::new();
    m.insert("Int".to_string(), serde_json::to_value(&tt.int).unwrap_or(serde_json::Value::Null));
    m.insert(
        "Float".to_string(),
        serde_json::to_value(&tt.float).unwrap_or(serde_json::Value::Null),
    );
    m.insert("Long".to_string(), serde_json::to_value(&tt.long).unwrap_or(serde_json::Value::Null));
    m.insert("Bool".to_string(), serde_json::to_value(&tt.bool).unwrap_or(serde_json::Value::Null));
    m.insert("Word".to_string(), serde_json::to_value(&tt.word).unwrap_or(serde_json::Value::Null));
    m.insert(
        "String".to_string(),
        serde_json::to_value(&tt.string).unwrap_or(serde_json::Value::Null),
    );
    serde_json::Value::Object(m)
}

/// Relies on `tera::Tera::render`: for a template set free of environment
/// reads, the outcome is the deterministic function `render_of` of the
/// engine's content, the template's name and the context; a failure names
/// the template.
#[verifier::external_body]
fn tera_render(t: &tera::Tera, name: &str, ctx: &tera::Context) -> (r: Result<String, RenderError>)
    ensures
        env_free_model(tera_model(*t)) ==> match r {
            Ok(s) => render_of(tera_model(*t), name@, ctx_model(*ctx)) == Some(s@),
            Err(_) => render_of(tera_model(*t), name@, ctx_model(*ctx)) is None,
        },
        r is Err ==> r->Err_0@ == RenderErrorModel::Template(name@),
{
    match t.render(name, ctx) {
        Ok(s) => Ok(s),
        Err(_) => Err(RenderError::Template(name.to_string())),
    }
}

// ---------------------------------------------------------------------------
// What the renderer computes, mathematically.
// ---------------------------------------------------------------------------

/// The template name asked for: `kind.ext.jinja`.
pub open spec fn template_path_of(kind: Seq<char>, ext: Seq<char>) -> Seq<char> {
    kind + "."@ + ext + ".jinja"@
}

/// The type token a variable resolves to.
pub open spec fn type_token_of(tt: TypeTokensModel, vt: VarType) -> Option<Seq<char>> {
    match vt {
        VarType::Int => tt.int,
        VarType::Float => tt.float,
        VarType::Long => tt.long,
        VarType::Bool => tt.bool,
        VarType::Word => tt.word,
        VarType::Str => tt.string,
    }
}

/// The records a read or loop-line template sees: each variable's name
/// transformed for the language, its resolved type token, and its length
/// bound.
pub open spec fn var_records_model(l: LanguageModel, vars: Seq<VarModel>) -> Seq<JsonVal> {
    vars.map_values(
        |v: VarModel|
            var_record_model(
                transform_of(l, v.name),
                type_token_of(l.type_tokens, v.var_type),
                v.max_length,
            ),
    )
}

/// What rendering a `read` command yields.
pub open spec fn sr_read(m: TeraModel, l: LanguageModel, vars: Seq<VarModel>) -> Result<
    Seq<char>,
    RenderErrorModel,
> {
    let path = template_path_of("read"@, l.source_file_ext);
    let ctx = Map::<Seq<char>, JsonVal>::empty().insert(
        "vars"@,
        JsonVal::Arr(var_records_model(l, vars)),
    ).insert("type_tokens"@, type_tokens_record(l.type_tokens));
    match render_of(m, path, ctx) {
        Some(s) => Ok(trim_end_of(s)),
        None => Err(RenderErrorModel::Template(path)),
    }
}

/// What rendering a `write` command yields.
pub open spec fn sr_write(m: TeraModel, l: LanguageModel, message: Seq<char>) -> Result<
    Seq<char>,
    RenderErrorModel,
> {
    let path = template_path_of("write"@, l.source_file_ext);
    let ctx = Map::<Seq<char>, JsonVal>::empty().insert(
        "messages"@,
        JsonVal::Arr(lines_of(message).map_values(|p: Seq<char>| JsonVal::Str(p))),
    );
    match render_of(m, path, ctx) {
        Some(s) => Ok(s),
        None => Err(RenderErrorModel::Template(path)),
    }
}

/// What rendering a `loopline` command yields.
pub open spec fn sr_loopline(
    m: TeraModel,
    l: LanguageModel,
    object: Seq<char>,
    vars: Seq<VarModel>,
) -> Result<Seq<char>, RenderErrorModel> {
    let path = template_path_of("loopline"@, l.source_file_ext);
    let ctx = Map::<Seq<char>, JsonVal>::empty().insert("object"@, JsonVal::Str(object)).insert(
        "vars"@,
        JsonVal::Arr(var_records_model(l, vars)),
    ).insert("type_tokens"@, type_tokens_record(l.type_tokens));
    match render_of(m, path, ctx) {
        Some(s) => Ok(s),
        None => Err(RenderErrorModel::Template(path)),
    }
}

/// What rendering one command yields; a loop renders its nested command
/// first and hands the lines to the loop template with the count.
pub open spec fn sr_command(m: TeraModel, l: LanguageModel, c: CmdModel) -> Result<
    Seq<char>,
    RenderErrorModel,
>
    decreases c,
{
    match c {
        CmdModel::Read(vars) => sr_read(m, l, vars),
        CmdModel::Write(message) => sr_write(m, l, message),
        CmdModel::LoopLine { object, variables } => sr_loopline(m, l, object, variables),
        CmdModel::Loop { count, command } => match sr_command(m, l, *command) {
            Err(e) => Err(e),
            Ok(inner) => {
                let path = template_path_of("loop"@, l.source_file_ext);
                let ctx = Map::<Seq<char>, JsonVal>::empty().insert(
                    "count"@,
                    JsonVal::Str(count),
                ).insert(
                    "inner"@,
                    JsonVal::Arr(lines_of(inner).map_values(|p: Seq<char>| JsonVal::Str(p))),
                );
                match render_of(m, path, ctx) {
                    Some(s) => Ok(s),
                    None => Err(RenderErrorModel::Template(path)),
                }
            },
        },
    }
}

/// The cosmetic normalization applied to each command's text: one newline
/// appended, then runs of blank lines collapsed, twice over.
pub open spec fn postprocess(s: Seq<char>) -> Seq<char> {
    replace_seq(replace_seq(s + seq!['\n'], "\n\n"@, "\n"@), "\n\n"@, "\n"@)
}

/// What rendering each top-level command in order yields, each normalized.
pub open spec fn sr_commands(m: TeraModel, l: LanguageModel, cs: Seq<CmdModel>) -> Result<
    Seq<Seq<char>>,
    RenderErrorModel,
>
    decreases cs.len(),
{
    if cs.len() == 0 {
        Ok(Seq::<Seq<char>>::empty())
    } else {
        match sr_command(m, l, cs[0]) {
            Err(e) => Err(e),
            Ok(s) => match sr_commands(m, l, cs.drop_first()) {
                Err(e) => Err(e),
                Ok(rest) => Ok(seq![postprocess(s)] + rest),
            },
        }
    }
}

/// The filter the language's convention selects. The mixed-case filter
/// serves camelCase and the camel-case filter serves PascalCase: the
/// filter library names its conventions the other way around, and the
/// observed behavior is what counts.
pub open spec fn filter_for(f: VariableNameFormat) -> CaseFilter {
    match f {
        VariableNameFormat::SnakeCase => CaseFilter::Snake,
        VariableNameFormat::CamelCase => CaseFilter::Mixed,
        VariableNameFormat::PascalCase => CaseFilter::Camel,
    }
}

/// What rendering a whole stub yields: every command rendered in order and
/// normalized, then handed as "commands" to the main template.
pub open spec fn sr_render_stub(
    l: LanguageModel,
    stub: StubModel,
    ts: Seq<(Seq<char>, Seq<char>)>,
) -> Result<Seq<char>, RenderErrorModel> {
    if !tera_accepts(ts) {
        Err(RenderErrorModel::TemplateSet)
    } else {
        let m = TeraModel {
            templates: templates_map(ts),
            case_filter: Some(filter_for(l.variable_format)),
        };
        match sr_commands(m, l, stub.commands) {
            Err(e) => Err(e),
            Ok(cmds) => {
                let path = template_path_of("main"@, l.source_file_ext);
                let ctx = Map::<Seq<char>, JsonVal>::empty().insert(
                    "commands"@,
                    JsonVal::Arr(cmds.map_values(|p: Seq<char>| JsonVal::Str(p))),
                );
                match render_of(m, path, ctx) {
                    Some(s) => Ok(s),
                    None => Err(RenderErrorModel::Template(path)),
                }
            },
        }
    }
}

/// The views of a template list's names and sources.
pub open spec fn template_views(templates: Seq<(String, String)>) -> Seq<(Seq<char>, Seq<char>)> {
    templates.map_values(|p: (String, String)| (p.0@, p.1@))
}

/// Maps an executable render result onto its ghost image.
pub open spec fn render_result_view(r: Result<String, RenderError>) -> Result<
    Seq<char>,
    RenderErrorModel,
> {
    match r {
        Ok(s) => Ok(s@),
        Err(e) => Err(e@),
    }
}

// ---------------------------------------------------------------------------
// The executable renderer.
// ---------------------------------------------------------------------------

/// `kind.ext.jinja`.
fn template_path(kind: &str, ext: &str) -> (r: String)
    ensures
        r@ == template_path_of(kind@, ext@),
{
    let mut s = String::from_str(kind);
    s.append(".");
    s.append(ext);
    s.append(".jinja");
    s
}

/// The type token a variable resolves to, copied out of the table.
fn type_token_exec(tt: &TypeTokens, vt: VarType) -> (r: Option<String>)
    ensures
        (match r {
            Some(s) => Some(s@),
            None => None,
        }) == type_token_of(tt@, vt),
{
    let field = match vt {
        VarType::Int => &tt.int,
        VarType::Float => &tt.float,
        VarType::Long => &tt.long,
        VarType::Bool => &tt.bool,
        VarType::Word => &tt.word,
        VarType::Str => &tt.string,
    };
    match field {
        Some(s) => Some(s.clone()),
        None => None,
    }
}

/// The per-variable records for a read or loop-line template.
fn make_var_records(lang: &Language, vars: &Vec<Var>) -> (r: Vec<serde_json::Value>)
    ensures
        r@.map_values(|v: serde_json::Value| json_model(v)) == var_records_model(
            lang@,
            vars@.map_values(|v: Var| v@),
        ),
{
    let ghost target = var_records_model(lang@, vars@.map_values(|v: Var| v@));
    let n = vars.len();
    let mut records: Vec<serde_json::Value> = Vec::new();
    let mut i: usize = 0;
    proof {
        assert(records@.map_values(|v: serde_json::Value| json_model(v)) =~= target.take(0));
    }
    while i < n
        invariant
            n == vars.len(),
            0 <= i <= n,
            target == var_records_model(lang@, vars@.map_values(|v: Var| v@)),
            target.len() == n,
            records@.map_values(|v: serde_json::Value| json_model(v)) == target.take(i as int),
        decreases n - i,
    {
        let var = &vars[i];
        let name = lang.transform_variable_name(var.name.as_str());
        let token = type_token_exec(&lang.type_tokens, var.var_type);
        let rec = make_var_record(name.as_str(), &token, &var.max_length);
        let ghost old_map = records@.map_values(|v: serde_json::Value| json_model(v));
        records.push(rec);
        proof {
            assert(records@.map_values(|v: serde_json::Value| json_model(v)) =~= old_map.push(
                json_model(rec),
            ));
            assert(json_model(rec) == target[i as int]);
            assert(old_map.push(json_model(rec)) =~= target.take(i + 1));
        }
        i = i + 1;
    }
    proof {
        assert(target.take(n as int) =~= target);
    }
    records
}

/// Renders one `read` command.
fn render_read(t: &tera::Tera, lang: &Language, vars: &Vec<Var>) -> (r: Result<String, RenderError>)
    ensures
        env_free_model(tera_model(*t)) ==> render_result_view(r) == sr_read(
            tera_model(*t),
            lang@,
            vars@.map_values(|v: Var| v@),
        ),
{
    let records = make_var_records(lang, vars);
    let tokens_value = make_type_tokens_value(&lang.type_tokens);
    let mut ctx = ctx_new();
    ctx_insert_values(&mut ctx, "vars", &records);
    ctx_insert_value(&mut ctx, "type_tokens", &tokens_value);
    let path = template_path("read", lang.source_file_ext.as_str());
    match tera_render(t, path.as_str(), &ctx) {
        Ok(s) => Ok(trim_end_exec(s.as_str())),
        Err(e) => Err(e),
    }
}

/// Renders one `write` command.
fn render_write(t: &tera::Tera, lang: &Language, message: &String) -> (r: Result<
    String,
    RenderError,
>)
    ensures
        env_free_model(tera_model(*t)) ==> render_result_view(r) == sr_write(
            tera_model(*t),
            lang@,
            message@,
        ),
{
    let lines = lines_exec(message.as_str());
    let mut ctx = ctx_new();
    ctx_insert_str_list(&mut ctx, "messages", &lines);
    proof {
        assert(lines@.map_values(|s: String| JsonVal::Str(s@)) =~= lines_of(
            message@,
        ).map_values(|p: Seq<char>| JsonVal::Str(p)));
    }
    let path = template_path("write", lang.source_file_ext.as_str());
    tera_render(t, path.as_str(), &ctx)
}

/// Renders one `loopline` command.
fn render_loopline(t: &tera::Tera, lang: &Language, object: &String, vars: &Vec<Var>) -> (r: Result<
    String,
    RenderError,
>)
    ensures
        env_free_model(tera_model(*t)) ==> render_result_view(r) == sr_loopline(
            tera_model(*t),
            lang@,
            object@,
            vars@.map_values(|v: Var| v@),
        ),
{
    let records = make_var_records(lang, vars);
    let tokens_value = make_type_tokens_value(&lang.type_tokens);
    let mut ctx = ctx_new();
    ctx_insert_str(&mut ctx, "object", object.as_str());
    ctx_insert_values(&mut ctx, "vars", &records);
    ctx_insert_value(&mut ctx, "type_tokens", &tokens_value);
    let path = template_path("loopline", lang.source_file_ext.as_str());
    tera_render(t, path.as_str(), &ctx)
}

/// Renders one command; a loop renders its nested command first.
fn render_command(t: &tera::Tera, lang: &Language, cmd: &Cmd) -> (r: Result<String, RenderError>)
    ensures
        env_free_model(tera_model(*t)) ==> render_result_view(r) == sr_command(
            tera_model(*t),
            lang@,
            cmd@,
        ),
    decreases *cmd,
{
    match cmd {
        Cmd::Read(vars) => render_read(t, lang, vars),
        Cmd::Write(message) => render_write(t, lang, message),
        Cmd::LoopLine { object, variables } => render_loopline(t, lang, object, variables),
        Cmd::Loop { count, command } => {
            match render_command(t, lang, command) {
                Err(e) => Err(e),
                Ok(inner) => {
                    let lines = lines_exec(inner.as_str());
                    let mut ctx = ctx_new();
                    ctx_insert_str(&mut ctx, "count", count.as_str());
                    ctx_insert_str_list(&mut ctx, "inner", &lines);
                    proof {
                        assert(lines@.map_values(|s: String| JsonVal::Str(s@)) =~= lines_of(
                            inner@,
                        ).map_values(|p: Seq<char>| JsonVal::Str(p)));
                    }
                    let path = template_path("loop", lang.source_file_ext.as_str());
                    tera_render(t, path.as_str(), &ctx)
                },
            }
        },
    }
}

/// Appends one newline and collapses runs of blank lines, twice over.
fn postprocess_exec(s: &str) -> (r: String)
    ensures
        r@ == postprocess(s@),
{
    let mut v = chars_vec(s);
    v.push('\n');
    let pat = chars_vec("\n\n");
    let rep = chars_vec("\n");
    proof {
        reveal_strlit("\n\n");
        reveal_strlit("\n");
        assert(pat@.len() == 2);
        assert(v@ =~= s@ + seq!['\n']);
    }
    let once = replace_chars(&v, &pat, &rep);
    let twice = replace_chars(&once, &pat, &rep);
    chars_to_string(&twice)
}

/// Renders a whole stub for one language, from the language's raw template
/// sources.
pub fn render_stub(lang: &Language, stub: &Stub, templates: &Vec<(String, String)>) -> (r: Result<
    String,
    RenderError,
>)
    ensures
        !tera_accepts(template_views(templates@)) ==> r == Err::<String, RenderError>(
            RenderError::TemplateSet,
        ),
        env_free(template_views(templates@)) ==> render_result_view(r) == sr_render_stub(
            lang@,
            stub@,
            template_views(templates@),
        ),
{
    let ghost ts = template_views(templates@);
    let mut engine = match tera_from_templates(templates) {
        Ok(t) => t,
        Err(e) => {
            return Err(e);
        },
    };
    match lang.variable_format {
        VariableNameFormat::SnakeCase => register_snake_case_filter(&mut engine),
        VariableNameFormat::CamelCase => register_mixed_case_filter(&mut engine),
        VariableNameFormat::PascalCase => register_camel_case_filter(&mut engine),
    }
    let ghost m = tera_model(engine);
    proof {
        assert(m == TeraModel {
            templates: templates_map(ts),
            case_filter: Some(filter_for(lang@.variable_format)),
        });
        if env_free(ts) {
            lemma_env_free_map(ts);
            assert(env_free_model(m));
        }
    }
    let n = stub.commands.len();
    let mut commands: Vec<String> = Vec::new();
    let mut i: usize = 0;
    let ghost cmds = stub@.commands;
    proof {
        assert(cmds.skip(0) =~= cmds);
        if env_free(ts) {
            assert(commands@.map_values(|p: String| p@) + Seq::<Seq<char>>::empty()
                =~= commands@.map_values(|p: String| p@));
        }
    }
    while i < n
        invariant
            n == stub.commands.len(),
            0 <= i <= n,
            ts == template_views(templates@),
            tera_accepts(ts),
            cmds == stub@.commands,
            cmds.len() == n,
            m == tera_model(engine),
            m == (TeraModel {
                templates: templates_map(ts),
                case_filter: Some(filter_for(lang@.variable_format)),
            }),
            env_free(ts) ==> env_free_model(m),
            env_free(ts) ==> sr_commands(m, lang@, cmds) == (match sr_commands(
                m,
                lang@,
                cmds.skip(i as int),
            ) {
                Err(e) => Err::<Seq<Seq<char>>, RenderErrorModel>(e),
                Ok(rest) => Ok::<Seq<Seq<char>>, RenderErrorModel>(
                    commands@.map_values(|p: String| p@) + rest,
                ),
            }),
        decreases n - i,
    {
        proof {
            assert(cmds.skip(i as int)[0] == cmds[i as int]);
            assert(cmds.skip(i as int).drop_first() =~= cmds.skip(i + 1));
            assert(stub.commands@.map_values(|c: Cmd| c@)[i as int] == cmds[i as int]);
        }
        match render_command(&engine, lang, &stub.commands[i]) {
            Err(e) => {
                return Err(e);
            },
            Ok(s) => {
                let post = postprocess_exec(s.as_str());
                let ghost old_map = commands@.map_values(|p: String| p@);
                commands.push(post);
                proof {
                    assert(commands@.map_values(|p: String| p@) =~= old_map.push(postprocess(s@)));
                    if env_free(ts) {
                        if sr_commands(m, lang@, cmds.skip(i + 1)) is Ok {
                            let rest = sr_commands(m, lang@, cmds.skip(i + 1))->Ok_0;
                            assert(old_map.push(postprocess(s@)) + rest =~= old_map + (seq![
                                postprocess(s@),
                            ] + rest));
                        }
                    }
                }
            },
        }
        i = i + 1;
    }
    proof {
        assert(cmds.skip(n as int) =~= Seq::<CmdModel>::empty());
        if env_free(ts) {
            assert(commands@.map_values(|p: String| p@) + Seq::<Seq<char>>::empty()
                =~= commands@.map_values(|p: String| p@));
        }
    }
    let mut ctx = ctx_new();
    ctx_insert_str_list(&mut ctx, "commands", &commands);
    let path = template_path("main", lang.source_file_ext.as_str());
    proof {
        if env_free(ts) {
            if sr_commands(m, lang@, cmds) is Ok {
                let got = sr_commands(m, lang@, cmds)->Ok_0;
                assert(commands@.map_values(|p: String| p@) == got);
                assert(commands@.map_values(|s: String| JsonVal::Str(s@)) =~= got.map_values(
                    |p: Seq<char>| JsonVal::Str(p),
                ));
            }
        }
    }
    tera_render(&engine, path.as_str(), &ctx)
}


/// Render determinism: the contract of `render_stub` pins its outcome to
/// one function of the language, the stub and the template sources, so two
/// renders of the same pair from the same environment-free template set
/// yield byte-identical output.
pub proof fn lemma_render_deterministic(
    l: LanguageModel,
    stub: StubModel,
    ts: Seq<(Seq<char>, Seq<char>)>,
    r1: Result<Seq<char>, RenderErrorModel>,
    r2: Result<Seq<char>, RenderErrorModel>,
)
    requires
        r1 == sr_render_stub(l, stub, ts),
        r2 == sr_render_stub(l, stub, ts),
    ensures
        r1 == r2,
{
}

} // verus!
