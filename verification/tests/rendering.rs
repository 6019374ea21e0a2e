use stubgen::stub::language::{Language, TypeTokens, VariableNameFormat};
use stubgen::stub::parser::parse_generator_stub;
use stubgen::stub::renderer::{render_stub, RenderError};

fn python_lang() -> Language {
    Language {
        name: String::from("python"),
        variable_format: VariableNameFormat::SnakeCase,
        allow_uppercase_vars: None,
        source_file_ext: String::from("py"),
        type_tokens: TypeTokens {
            int: Some(String::from("int")),
            float: Some(String::from("float")),
            long: Some(String::from("int")),
            bool: Some(String::from("bool")),
            word: Some(String::from("str")),
            string: Some(String::from("str")),
        },
        keywords: vec![String::from("if")],
        aliases: None,
    }
}

fn templates() -> Vec<(String, String)> {
    vec![
        (
            String::from("main.py.jinja"),
            String::from("{% for cmd in commands %}{{ cmd }}{% endfor %}"),
        ),
        (
            String::from("read.py.jinja"),
            String::from(
                "{% for var in vars %}read {{ var.name }} {{ var.type_token }}{% if var.max_length %} {{ var.max_length }}{% endif %}\n{% endfor %}",
            ),
        ),
        (
            String::from("write.py.jinja"),
            String::from("{% for msg in messages %}print {{ msg }}\n{% endfor %}"),
        ),
        (
            String::from("loop.py.jinja"),
            String::from(
                "for i in range({{ count }}):\n{% for line in inner %}    {{ line }}\n{% endfor %}",
            ),
        ),
        (
            String::from("loopline.py.jinja"),
            String::from(
                "for x in {{ object }}: {% for var in vars %}{{ var.name }}:{{ var.type_token }} {% endfor %}\n",
            ),
        ),
    ]
}

fn render(text: &str) -> String {
    let stub = parse_generator_stub(String::from(text)).expect("parse failed");
    render_stub(&python_lang(), &stub, &templates()).expect("render failed")
}

#[test]
fn read_command_renders_transformed_names_and_tokens() {
    assert_eq!(render("read myVar:int\n"), "read my_var int\n");
}

#[test]
fn read_command_renders_length_bounds() {
    assert_eq!(render("read msg:word(7)\n"), "read msg str 7\n");
}

#[test]
fn keyword_collision_is_escaped_in_output() {
    assert_eq!(render("read if:int\n"), "read _if int\n");
}

#[test]
fn write_command_renders_each_line() {
    assert_eq!(render("write Hello\n"), "print Hello\n");
}

#[test]
fn loop_command_indents_its_body() {
    assert_eq!(render("loop T\nread N:int\n"), "for i in range(T):\n    read N int\n");
}

#[test]
fn loopline_command_names_the_object() {
    assert_eq!(render("loopline arr N:int\n"), "for x in arr: N:int \n");
}

#[test]
fn commands_render_in_order() {
    assert_eq!(
        render("read a:int\nwrite done\n"),
        "read a int\nprint done\n",
    );
}

#[test]
fn rendering_is_deterministic() {
    let stub = parse_generator_stub(String::from(
        "read myVar:int other:string(12)\nloop N\nwrite tick\n",
    ))
    .expect("parse failed");
    let lang = python_lang();
    let tpls = templates();
    let first = render_stub(&lang, &stub, &tpls).expect("render failed");
    let second = render_stub(&lang, &stub, &tpls).expect("render failed");
    assert_eq!(first, second);
}

#[test]
fn case_filter_follows_the_language_convention() {
    let mut tpls = templates();
    tpls[0].1 = String::from(
        "{{ \"myVarName\" | case }}|{% for cmd in commands %}{{ cmd }}{% endfor %}",
    );
    let stub = parse_generator_stub(String::from("write x\n")).expect("parse failed");
    let out = render_stub(&python_lang(), &stub, &tpls).expect("render failed");
    assert_eq!(out, "my_var_name|print x\n");
}

#[test]
fn bad_template_set_is_reported() {
    let tpls = vec![(String::from("main.py.jinja"), String::from("{% if %}"))];
    let stub = parse_generator_stub(String::from("write x\n")).expect("parse failed");
    match render_stub(&python_lang(), &stub, &tpls) {
        Err(RenderError::TemplateSet) => {},
        other => panic!("expected a template-set error, got {:?}", other),
    }
}

#[test]
fn missing_template_is_named() {
    let tpls = vec![(
        String::from("main.py.jinja"),
        String::from("{% for cmd in commands %}{{ cmd }}{% endfor %}"),
    )];
    let stub = parse_generator_stub(String::from("write x\n")).expect("parse failed");
    match render_stub(&python_lang(), &stub, &tpls) {
        Err(RenderError::Template(name)) => assert_eq!(name, "write.py.jinja"),
        other => panic!("expected a template error, got {:?}", other),
    }
}

#[test]
fn blank_line_runs_are_collapsed() {
    let mut tpls = templates();
    tpls[2].1 = String::from("{% for msg in messages %}print {{ msg }}\n\n\n{% endfor %}");
    let stub = parse_generator_stub(String::from("write x\n")).expect("parse failed");
    let out = render_stub(&python_lang(), &stub, &tpls).expect("render failed");
    assert_eq!(out, "print x\n");
}
