use ide_complete::model::{
    Binding, CastInfo, Evaluation, FontFamily, Func, FuncInfo, Method, MethodTable, ModuleFile,
    ParamInfo, Symbol, SymbolVariant, Value, ValueData, World,
};
use ide_complete::syntax::{Source, SourceBuilder, SyntaxKind};
use ide_complete::text::{text_less, trim_quote_marks};
use ide_complete::{autocomplete, Completion, CompletionContext, CompletionKind};

fn plain(ty: &str, repr: &str) -> Value {
    Value { ty: ty.to_string(), repr: repr.to_string(), data: ValueData::Plain }
}

fn param(name: &str, cast: CastInfo, positional: bool, named: bool, settable: bool) -> ParamInfo {
    ParamInfo {
        name: name.to_string(),
        docs: format!("The {name}."),
        cast,
        positional,
        named,
        settable,
    }
}

fn func(name: &str, params: Vec<ParamInfo>, selectable: bool) -> Binding {
    Binding {
        name: name.to_string(),
        value: Value {
            ty: "function".to_string(),
            repr: name.to_string(),
            data: ValueData::Func(Func {
                info: Some(FuncInfo { docs: format!("Does {name}."), params }),
                selectable,
            }),
        },
    }
}

fn constant(name: &str, ty: &str, repr: &str) -> Binding {
    Binding { name: name.to_string(), value: plain(ty, repr) }
}

fn world(global: Vec<Binding>) -> World {
    World {
        global,
        math: vec![],
        fonts: vec![],
        methods: vec![],
        evaluations: vec![],
        modules: vec![],
    }
}

fn labels(cs: &[Completion]) -> Vec<String> {
    cs.iter().map(|c| c.label.clone()).collect()
}

fn find<'a>(cs: &'a [Completion], label: &str) -> &'a Completion {
    cs.iter().find(|c| c.label == label).unwrap()
}

fn count(cs: &[Completion], label: &str) -> usize {
    cs.iter().filter(|c| c.label == label).count()
}

/// `#` alone in markup.
fn hashtag_source() -> Source {
    let mut b = SourceBuilder::new(SyntaxKind::Markup);
    b.leaf(SyntaxKind::Text, "Hi ");
    b.leaf(SyntaxKind::Hashtag, "#");
    b.finish()
}

/// `#{ }`: a code block with a space inside.
fn code_block_source() -> Source {
    let mut b = SourceBuilder::new(SyntaxKind::Markup);
    b.leaf(SyntaxKind::Hashtag, "#");
    b.start(SyntaxKind::CodeBlock);
    b.leaf(SyntaxKind::LeftBrace, "{");
    b.leaf(SyntaxKind::Space, " ");
    b.leaf(SyntaxKind::RightBrace, "}");
    b.end();
    b.finish()
}

/// `#show ` or `#set `.
fn rule_source(rule: SyntaxKind, keyword: SyntaxKind, word: &str) -> Source {
    let mut b = SourceBuilder::new(SyntaxKind::Markup);
    b.leaf(SyntaxKind::Hashtag, "#");
    b.start(rule);
    b.leaf(keyword, word);
    b.leaf(SyntaxKind::Space, " ");
    b.end();
    b.finish()
}

/// `#f(a: 1, )` or `#f(a: 1,)`.
fn call_after_named_source(space: bool) -> Source {
    let mut b = SourceBuilder::new(SyntaxKind::Markup);
    b.leaf(SyntaxKind::Hashtag, "#");
    b.start(SyntaxKind::FuncCall);
    b.leaf(SyntaxKind::Ident, "f");
    b.start(SyntaxKind::Args);
    b.leaf(SyntaxKind::LeftParen, "(");
    b.start(SyntaxKind::Named);
    b.leaf(SyntaxKind::Ident, "a");
    b.leaf(SyntaxKind::Colon, ":");
    b.leaf(SyntaxKind::Space, " ");
    b.leaf(SyntaxKind::Int, "1");
    b.end();
    b.leaf(SyntaxKind::Comma, ",");
    if space {
        b.leaf(SyntaxKind::Space, " ");
    }
    b.leaf(SyntaxKind::RightParen, ")");
    b.end();
    b.end();
    b.finish()
}

/// `#name()`, with the cursor meant after the parenthesis.
fn empty_call_source(name: &str) -> Source {
    let mut b = SourceBuilder::new(SyntaxKind::Markup);
    b.leaf(SyntaxKind::Hashtag, "#");
    b.start(SyntaxKind::FuncCall);
    b.leaf(SyntaxKind::Ident, name);
    b.start(SyntaxKind::Args);
    b.leaf(SyntaxKind::LeftParen, "(");
    b.leaf(SyntaxKind::RightParen, ")");
    b.end();
    b.end();
    b.finish()
}

/// `#f(a:)` or `#f(a: )`.
fn named_value_source(space: bool) -> Source {
    let mut b = SourceBuilder::new(SyntaxKind::Markup);
    b.leaf(SyntaxKind::Hashtag, "#");
    b.start(SyntaxKind::FuncCall);
    b.leaf(SyntaxKind::Ident, "f");
    b.start(SyntaxKind::Args);
    b.leaf(SyntaxKind::LeftParen, "(");
    b.start(SyntaxKind::Named);
    b.leaf(SyntaxKind::Ident, "a");
    b.leaf(SyntaxKind::Colon, ":");
    if space {
        b.leaf(SyntaxKind::Space, " ");
    }
    b.end();
    b.leaf(SyntaxKind::RightParen, ")");
    b.end();
    b.end();
    b.finish()
}

/// `#emoji.`
fn field_source() -> Source {
    let mut b = SourceBuilder::new(SyntaxKind::Markup);
    b.leaf(SyntaxKind::Hashtag, "#");
    b.start(SyntaxKind::FieldAccess);
    b.leaf(SyntaxKind::Ident, "emoji");
    b.leaf(SyntaxKind::Dot, ".");
    b.end();
    b.finish()
}

#[test]
fn no_leaf_gives_nothing() {
    let w = world(vec![]);
    let s = hashtag_source();
    assert!(autocomplete(&w, &s, 100, true).is_none());
    assert!(autocomplete(&w, &s, 5, true).is_none());
}

#[test]
fn start_of_document_has_a_leaf() {
    // "Hi #" with the cursor before "Hi".
    let w = world(vec![]);
    let s = hashtag_source();
    let (from, cs) = autocomplete(&w, &s, 0, true).unwrap();
    assert_eq!(from, 0);
    assert_eq!(cs.len(), 16);
    assert_eq!(cs[0].label, "expression");
    let (from, cs) = autocomplete(&w, &s, 0, false).unwrap();
    assert_eq!(from, 0);
    assert!(cs.is_empty());
}

#[test]
fn one_leaf_document_at_start() {
    let w = world(vec![]);
    let mut b = SourceBuilder::new(SyntaxKind::Markup);
    b.leaf(SyntaxKind::Text, "hello");
    let s = b.finish();
    let (from, cs) = autocomplete(&w, &s, 0, true).unwrap();
    assert_eq!(from, 0);
    assert_eq!(find(&cs, "heading").apply.as_deref(), Some("= ${title}"));
    assert!(CompletionContext::new(&w, &s, 0, true).is_some());
}

#[test]
fn empty_document_offers_markup_snippets() {
    let w = world(vec![]);
    let s = SourceBuilder::new(SyntaxKind::Markup).finish();
    let (from, cs) = autocomplete(&w, &s, 0, true).unwrap();
    assert_eq!(from, 0);
    assert_eq!(cs.len(), 16);
    assert!(autocomplete(&w, &s, 1, true).is_none());
}

#[test]
fn hashtag_offers_interpolable_globals() {
    let w = world(vec![
        func("page", vec![], false),
        constant("pi", "float", "3.14"),
    ]);
    let s = hashtag_source();
    let (from, cs) = autocomplete(&w, &s, 4, false).unwrap();
    assert_eq!(from, 4);
    let ls = labels(&cs);
    assert!(ls.contains(&"page".to_string()));
    assert!(!ls.contains(&"pi".to_string()));
    assert_eq!(find(&cs, "page").kind, CompletionKind::Func);
    assert_eq!(find(&cs, "page").detail.as_deref(), Some("Does page."));
    // Behind an escape the unnamed function is not offered.
    assert!(ls.contains(&"let binding".to_string()));
    assert!(!ls.contains(&"function".to_string()));
}

#[test]
fn statement_snippets_only_when_explicit() {
    let w = world(vec![constant("pi", "float", "3.14")]);
    let s = code_block_source();
    let (from, cs) = autocomplete(&w, &s, 3, false).unwrap();
    assert_eq!(from, 3);
    assert!(cs.is_empty());
    let (from, cs) = autocomplete(&w, &s, 3, true).unwrap();
    assert_eq!(from, 3);
    let ls = labels(&cs);
    assert!(ls.contains(&"pi".to_string()));
    assert!(ls.contains(&"for loop".to_string()));
    assert!(ls.contains(&"function".to_string()));
    assert_eq!(find(&cs, "pi").detail.as_deref(), Some("3.14"));
    assert_eq!(find(&cs, "code block").apply.as_deref(), Some("{ ${} }"));
}

#[test]
fn show_offers_selectable_functions_and_selectors() {
    let w = world(vec![
        func("strong", vec![], true),
        func("rgb", vec![], false),
    ]);
    let s = rule_source(SyntaxKind::ShowRule, SyntaxKind::ShowKeyword, "show");
    let (from, cs) = autocomplete(&w, &s, 6, false).unwrap();
    assert_eq!(from, 6);
    let ls = labels(&cs);
    assert_eq!(ls, vec!["strong", "text selector", "regex selector"]);
    assert_eq!(find(&cs, "strong").apply.as_deref(), Some("strong: "));
    assert_eq!(find(&cs, "text selector").apply.as_deref(), Some("\"${text}\": ${}"));
    assert_eq!(find(&cs, "regex selector").apply.as_deref(), Some("regex(\"${regex}\"): ${}"));
}

#[test]
fn set_offers_settable_functions() {
    let w = world(vec![
        func("text", vec![param("size", CastInfo::Any, false, true, true)], false),
        func("rgb", vec![param("r", CastInfo::Any, true, false, false)], false),
    ]);
    let s = rule_source(SyntaxKind::SetRule, SyntaxKind::SetKeyword, "set");
    let (from, cs) = autocomplete(&w, &s, 5, false).unwrap();
    assert_eq!(from, 5);
    assert_eq!(labels(&cs), vec!["text"]);
}

#[test]
fn show_rule_recipe() {
    let w = world(vec![func("strong", vec![], true), constant("pi", "float", "3.14")]);
    let mut b = SourceBuilder::new(SyntaxKind::Markup);
    b.leaf(SyntaxKind::Hashtag, "#");
    b.start(SyntaxKind::ShowRule);
    b.leaf(SyntaxKind::ShowKeyword, "show");
    b.leaf(SyntaxKind::Space, " ");
    b.leaf(SyntaxKind::Ident, "strong");
    b.leaf(SyntaxKind::Colon, ":");
    b.leaf(SyntaxKind::Space, " ");
    b.end();
    let s = b.finish();
    let (from, cs) = autocomplete(&w, &s, 14, false).unwrap();
    assert_eq!(from, 14);
    assert_eq!(
        labels(&cs),
        vec!["replacement", "replacement (string)", "transformation", "strong"]
    );
}

#[test]
fn named_params_exclude_given_ones() {
    let w = world(vec![func(
        "f",
        vec![
            param("a", CastInfo::Any, false, true, false),
            param("b", CastInfo::Any, false, true, false),
            param("c", CastInfo::Any, false, true, false),
        ],
        false,
    )]);
    let s = call_after_named_source(true);
    let (from, cs) = autocomplete(&w, &s, 9, false).unwrap();
    assert_eq!(from, 9);
    assert_eq!(labels(&cs), vec!["b", "c"]);
    assert_eq!(find(&cs, "b").kind, CompletionKind::Param);
    assert_eq!(find(&cs, "b").apply.as_deref(), Some("b: ${}"));
    assert_eq!(find(&cs, "c").detail.as_deref(), Some("The c."));
}

#[test]
fn comma_before_cursor_adds_a_space() {
    let w = world(vec![func(
        "f",
        vec![
            param("a", CastInfo::Any, false, true, false),
            param("b", CastInfo::Any, false, true, false),
        ],
        false,
    )]);
    let s = call_after_named_source(false);
    let (from, cs) = autocomplete(&w, &s, 8, false).unwrap();
    assert_eq!(from, 8);
    assert_eq!(labels(&cs), vec!["b"]);
    assert_eq!(find(&cs, "b").apply.as_deref(), Some(" b: ${}"));
}

#[test]
fn same_constraint_twice_expands_once() {
    let cast = CastInfo::Union(vec![
        CastInfo::Type("length".to_string()),
        CastInfo::Type("length".to_string()),
    ]);
    let w = world(vec![
        func("f", vec![param("size", cast, true, false, false)], false),
        constant("pt", "length", "1pt"),
    ]);
    let s = empty_call_source("f");
    let (from, cs) = autocomplete(&w, &s, 3, false).unwrap();
    assert_eq!(from, 3);
    assert_eq!(count(&cs, "length"), 1);
    assert_eq!(count(&cs, "pt"), 1);
    assert_eq!(find(&cs, "length").apply.as_deref(), Some("${length}"));
    assert_eq!(find(&cs, "length").detail.as_deref(), Some("A value of type length."));
}

#[test]
fn quoted_value_keeps_quotes_in_apply() {
    let w = world(vec![]);
    let s = hashtag_source();
    let mut ctx = CompletionContext::new(&w, &s, 4, false).unwrap();
    let v = Value {
        ty: "string".to_string(),
        repr: "\"serif\"".to_string(),
        data: ValueData::Str("serif".to_string()),
    };
    ctx.value_completion(None, &v, None);
    let c = &ctx.completions[0];
    assert_eq!(c.label, "serif");
    assert_eq!(c.apply.as_deref(), Some("\"serif\""));
    assert_eq!(c.detail.as_deref(), Some("\"serif\""));
    assert_eq!(c.kind, CompletionKind::Constant);
}

#[test]
fn value_constraint_with_quotes() {
    let cast = CastInfo::Union(vec![
        CastInfo::Value(
            Value {
                ty: "string".to_string(),
                repr: "\"left\"".to_string(),
                data: ValueData::Str("left".to_string()),
            },
            "Align left.".to_string(),
        ),
        CastInfo::Type("none".to_string()),
    ]);
    let w = world(vec![func("align", vec![param("alignment", cast, true, false, false)], false)]);
    let s = empty_call_source("align");
    let (_, cs) = autocomplete(&w, &s, 7, false).unwrap();
    assert_eq!(labels(&cs), vec!["left", "none"]);
    assert_eq!(find(&cs, "left").apply.as_deref(), Some("\"left\""));
    assert_eq!(find(&cs, "left").detail.as_deref(), Some("Align left."));
}

#[test]
fn text_call_offers_font_families() {
    let mut w = world(vec![func(
        "text",
        vec![param("font", CastInfo::Any, false, true, true)],
        false,
    )]);
    w.fonts = vec![
        FontFamily { name: "Libertinus Serif".to_string(), summary: "4 variants".to_string() },
        FontFamily { name: "Noto Sans".to_string(), summary: "2 variants".to_string() },
    ];
    let s = empty_call_source("text");
    let (from, cs) = autocomplete(&w, &s, 6, false).unwrap();
    assert_eq!(from, 6);
    assert_eq!(labels(&cs), vec!["Libertinus Serif", "Noto Sans", "font"]);
    let f = find(&cs, "Noto Sans");
    assert_eq!(f.kind, CompletionKind::Font);
    assert_eq!(f.apply.as_deref(), Some("\"Noto Sans\""));
    assert_eq!(f.detail.as_deref(), Some("2 variants"));
}

#[test]
fn named_value_behind_colon() {
    let w = world(vec![func(
        "f",
        vec![param("a", CastInfo::Type("boolean".to_string()), false, true, false)],
        false,
    )]);
    let s = named_value_source(false);
    let (from, cs) = autocomplete(&w, &s, 5, false).unwrap();
    assert_eq!(from, 5);
    assert_eq!(labels(&cs), vec!["false", "true"]);
    assert_eq!(find(&cs, "true").apply.as_deref(), Some(" true"));
    let s = named_value_source(true);
    let (from, cs) = autocomplete(&w, &s, 6, false).unwrap();
    assert_eq!(from, 6);
    assert_eq!(find(&cs, "true").apply.as_deref(), Some("true"));
}

#[test]
fn color_type_offers_constructors_and_colors() {
    let w = world(vec![
        func("f", vec![param("fill", CastInfo::Type("color".to_string()), true, false, false)], false),
        constant("red", "color", "rgb(\"#ff4136\")"),
        constant("pi", "float", "3.14"),
    ]);
    let s = empty_call_source("f");
    let (_, cs) = autocomplete(&w, &s, 3, false).unwrap();
    assert_eq!(labels(&cs), vec!["luma()", "rgb()", "cmyk()", "red"]);
}

#[test]
fn shadowed_global_is_offered_once_as_local() {
    // `#let x = 1; #x`
    let w = world(vec![func("x", vec![], false), func("page", vec![], false)]);
    let mut b = SourceBuilder::new(SyntaxKind::Markup);
    b.leaf(SyntaxKind::Hashtag, "#");
    b.start(SyntaxKind::LetBinding);
    b.leaf(SyntaxKind::LetKeyword, "let");
    b.leaf(SyntaxKind::Space, " ");
    b.leaf(SyntaxKind::Ident, "x");
    b.leaf(SyntaxKind::Space, " ");
    b.leaf(SyntaxKind::Eq, "=");
    b.leaf(SyntaxKind::Space, " ");
    b.leaf(SyntaxKind::Int, "1");
    b.end();
    b.leaf(SyntaxKind::Text, "; ");
    b.leaf(SyntaxKind::Hashtag, "#");
    b.leaf(SyntaxKind::Ident, "x");
    let s = b.finish();
    let (from, cs) = autocomplete(&w, &s, 14, false).unwrap();
    assert_eq!(from, 13);
    assert_eq!(count(&cs, "x"), 1);
    assert_eq!(find(&cs, "x").kind, CompletionKind::Constant);
    assert!(find(&cs, "x").apply.is_none());
    assert_eq!(count(&cs, "page"), 1);
}

#[test]
fn later_binding_is_not_visible() {
    // `#y; #let y = 2`
    let w = world(vec![]);
    let mut b = SourceBuilder::new(SyntaxKind::Markup);
    b.leaf(SyntaxKind::Hashtag, "#");
    b.leaf(SyntaxKind::Ident, "y");
    b.leaf(SyntaxKind::Text, "; ");
    b.leaf(SyntaxKind::Hashtag, "#");
    b.start(SyntaxKind::LetBinding);
    b.leaf(SyntaxKind::LetKeyword, "let");
    b.leaf(SyntaxKind::Space, " ");
    b.leaf(SyntaxKind::Ident, "y");
    b.end();
    let s = b.finish();
    let (from, cs) = autocomplete(&w, &s, 2, false).unwrap();
    assert_eq!(from, 1);
    assert_eq!(count(&cs, "y"), 0);
}

#[test]
fn for_loop_names_visible_in_body_not_iterable() {
    // `#for k, v in d { v }` with the cursor on the body's `v` and on `d`.
    let w = world(vec![]);
    let mut b = SourceBuilder::new(SyntaxKind::Markup);
    b.leaf(SyntaxKind::Hashtag, "#");
    b.start(SyntaxKind::ForLoop);
    b.leaf(SyntaxKind::ForKeyword, "for");
    b.leaf(SyntaxKind::Space, " ");
    b.start(SyntaxKind::ForPattern);
    b.leaf(SyntaxKind::Ident, "k");
    b.leaf(SyntaxKind::Comma, ",");
    b.leaf(SyntaxKind::Space, " ");
    b.leaf(SyntaxKind::Ident, "v");
    b.end();
    b.leaf(SyntaxKind::Space, " ");
    b.leaf(SyntaxKind::InKeyword, "in");
    b.leaf(SyntaxKind::Space, " ");
    b.leaf(SyntaxKind::Ident, "d");
    b.leaf(SyntaxKind::Space, " ");
    b.start(SyntaxKind::CodeBlock);
    b.leaf(SyntaxKind::LeftBrace, "{");
    b.leaf(SyntaxKind::Space, " ");
    b.leaf(SyntaxKind::Ident, "v");
    b.leaf(SyntaxKind::Space, " ");
    b.leaf(SyntaxKind::RightBrace, "}");
    b.end();
    b.end();
    let s = b.finish();
    // "#for k, v in d { v }": the body's v ends at 18.
    let (from, cs) = autocomplete(&w, &s, 18, false).unwrap();
    assert_eq!(from, 17);
    // No builtins here: the local names come first, before the snippets.
    assert_eq!(labels(&cs)[..2].to_vec(), vec!["k", "v"]);
    // The iterable d ends at 14.
    let (from, cs) = autocomplete(&w, &s, 14, false).unwrap();
    assert_eq!(from, 13);
    assert_eq!(count(&cs, "k"), 0);
    assert_eq!(count(&cs, "v"), 0);
}

#[test]
fn binding_value_after_eq() {
    // `#let x = ` with the cursor after the space.
    let w = world(vec![constant("pi", "float", "3.14")]);
    let mut b = SourceBuilder::new(SyntaxKind::Markup);
    b.leaf(SyntaxKind::Hashtag, "#");
    b.start(SyntaxKind::LetBinding);
    b.leaf(SyntaxKind::LetKeyword, "let");
    b.leaf(SyntaxKind::Space, " ");
    b.leaf(SyntaxKind::Ident, "x");
    b.leaf(SyntaxKind::Space, " ");
    b.leaf(SyntaxKind::Eq, "=");
    b.end();
    b.leaf(SyntaxKind::Space, " ");
    let s = b.finish();
    let (from, cs) = autocomplete(&w, &s, 9, false).unwrap();
    assert_eq!(from, 9);
    let ls = labels(&cs);
    assert!(ls.contains(&"pi".to_string()));
    assert!(ls.contains(&"function".to_string()));
}

#[test]
fn explicit_markup_offers_markup_snippets() {
    let w = world(vec![]);
    let s = hashtag_source();
    let (from, cs) = autocomplete(&w, &s, 2, true).unwrap();
    assert_eq!(from, 2);
    assert_eq!(cs.len(), 16);
    assert_eq!(cs[0].label, "expression");
    assert_eq!(find(&cs, "linebreak").apply.as_deref(), Some("\\\n${}"));
    let (_, cs) = autocomplete(&w, &s, 2, false).unwrap();
    assert!(cs.is_empty());
}

fn field_world() -> World {
    let mut w = world(vec![]);
    w.methods = vec![MethodTable {
        ty: "dictionary".to_string(),
        methods: vec![
            Method { name: "len".to_string(), takes_args: false },
            Method { name: "at".to_string(), takes_args: true },
        ],
    }];
    w.evaluations = vec![Evaluation {
        node: 3,
        value: Value {
            ty: "dictionary".to_string(),
            repr: "(a: 1)".to_string(),
            data: ValueData::Dict(vec![constant("a", "integer", "1")]),
        },
    }];
    w
}

#[test]
fn field_access_offers_methods_and_entries() {
    let w = field_world();
    let s = field_source();
    let (from, cs) = autocomplete(&w, &s, 7, false).unwrap();
    assert_eq!(from, 7);
    assert_eq!(labels(&cs), vec!["len", "at", "a"]);
    assert_eq!(find(&cs, "len").apply.as_deref(), Some("len()${}"));
    assert_eq!(find(&cs, "at").apply.as_deref(), Some("at(${})"));
    assert_eq!(find(&cs, "a").detail.as_deref(), Some("1"));
}

#[test]
fn field_access_excludes_markup_snippets() {
    let w = field_world();
    let s = field_source();
    let (_, cs) = autocomplete(&w, &s, 7, true).unwrap();
    let ls = labels(&cs);
    assert_eq!(ls, vec!["len", "at", "a"]);
    assert!(!ls.contains(&"linebreak".to_string()));
    assert!(!ls.contains(&"expression".to_string()));
}

#[test]
fn started_field_access_on_symbol() {
    // `#arrow.r`
    let mut w = world(vec![]);
    w.evaluations = vec![Evaluation {
        node: 3,
        value: Value {
            ty: "symbol".to_string(),
            repr: "→".to_string(),
            data: ValueData::Symbol(Symbol {
                glyph: '→',
                variants: vec![
                    SymbolVariant { modifier: "r".to_string(), glyph: '→' },
                    SymbolVariant { modifier: "l".to_string(), glyph: '←' },
                ],
            }),
        },
    }];
    let mut b = SourceBuilder::new(SyntaxKind::Markup);
    b.leaf(SyntaxKind::Hashtag, "#");
    b.start(SyntaxKind::FieldAccess);
    b.leaf(SyntaxKind::Ident, "arrow");
    b.leaf(SyntaxKind::Dot, ".");
    b.leaf(SyntaxKind::Ident, "r");
    b.end();
    let s = b.finish();
    let (from, cs) = autocomplete(&w, &s, 8, false).unwrap();
    assert_eq!(from, 7);
    assert_eq!(labels(&cs), vec!["r", "l"]);
    assert_eq!(find(&cs, "l").kind, CompletionKind::Symbol('←'));
}

fn import_source(with_item: bool) -> Source {
    // `#import "m.typ": ` or `#import "m.typ": a, `
    let mut b = SourceBuilder::new(SyntaxKind::Markup);
    b.leaf(SyntaxKind::Hashtag, "#");
    b.start(SyntaxKind::ModuleImport);
    b.leaf(SyntaxKind::ImportKeyword, "import");
    b.leaf(SyntaxKind::Space, " ");
    b.leaf(SyntaxKind::Str, "\"m.typ\"");
    b.leaf(SyntaxKind::Colon, ":");
    b.start(SyntaxKind::ImportItems);
    if with_item {
        b.leaf(SyntaxKind::Space, " ");
        b.leaf(SyntaxKind::Ident, "a");
        b.leaf(SyntaxKind::Comma, ",");
    }
    b.end();
    b.end();
    b.leaf(SyntaxKind::Space, " ");
    b.finish()
}

fn import_world() -> World {
    let mut w = world(vec![]);
    w.evaluations = vec![Evaluation {
        node: 5,
        value: Value {
            ty: "string".to_string(),
            repr: "\"m.typ\"".to_string(),
            data: ValueData::Str("m.typ".to_string()),
        },
    }];
    w.modules = vec![ModuleFile {
        path: "m.typ".to_string(),
        scope: vec![constant("a", "integer", "1"), constant("b", "integer", "2")],
    }];
    w
}

#[test]
fn import_list_offers_everything_and_exports() {
    let w = import_world();
    let s = import_source(false);
    let (from, cs) = autocomplete(&w, &s, 17, false).unwrap();
    assert_eq!(from, 17);
    assert_eq!(labels(&cs), vec!["*", "a", "b"]);
}

#[test]
fn import_list_skips_named_items() {
    let w = import_world();
    let s = import_source(true);
    let (from, cs) = autocomplete(&w, &s, 20, false).unwrap();
    assert_eq!(from, 20);
    assert_eq!(labels(&cs), vec!["b"]);
}

#[test]
fn math_offers_math_scope_and_snippets() {
    // `$a$` with the cursor behind `a`.
    let mut w = world(vec![constant("pi", "float", "3.14")]);
    w.math = vec![constant("alpha", "symbol", "α")];
    let mut b = SourceBuilder::new(SyntaxKind::Markup);
    b.start(SyntaxKind::Formula);
    b.leaf(SyntaxKind::Text, "$");
    b.start(SyntaxKind::Math);
    b.leaf(SyntaxKind::MathIdent, "a");
    b.end();
    b.leaf(SyntaxKind::Text, "$");
    b.end();
    let s = b.finish();
    let (from, cs) = autocomplete(&w, &s, 2, false).unwrap();
    assert_eq!(from, 1);
    assert_eq!(labels(&cs), vec!["alpha", "subscript", "superscript", "fraction"]);
}

#[test]
fn from_never_passes_cursor() {
    let w = field_world();
    let sources = vec![
        hashtag_source(),
        code_block_source(),
        field_source(),
        call_after_named_source(true),
        named_value_source(true),
    ];
    for s in &sources {
        for cursor in 0..12 {
            for explicit in [false, true] {
                if let Some((from, _)) = autocomplete(&w, s, cursor, explicit) {
                    assert!(from <= cursor);
                }
            }
        }
    }
}

#[test]
fn trims_every_quote_at_both_ends() {
    assert_eq!(trim_quote_marks("\"\"a\"b\"\""), "a\"b");
    assert_eq!(trim_quote_marks("\"\""), "");
    assert_eq!(trim_quote_marks("plain"), "plain");
}

#[test]
fn enrich_wraps_label_or_apply() {
    let w = world(vec![]);
    let s = hashtag_source();
    let mut ctx = CompletionContext::new(&w, &s, 4, false).unwrap();
    ctx.snippet_completion("a", "x${}", "Doc.");
    ctx.value_completion(Some("b".to_string()), &plain("integer", "2"), None);
    ctx.enrich("<", ">");
    assert_eq!(ctx.completions[0].apply.as_deref(), Some("<x${}>"));
    assert_eq!(ctx.completions[1].apply.as_deref(), Some("<b>"));
    assert_eq!(ctx.completions[1].label, "b");
}

fn math_source(leaf: SyntaxKind, text: &str) -> Source {
    // `$x$` with a leaf of the given kind inside.
    let mut b = SourceBuilder::new(SyntaxKind::Markup);
    b.start(SyntaxKind::Formula);
    b.leaf(SyntaxKind::Text, "$");
    b.start(SyntaxKind::Math);
    b.leaf(leaf, text);
    b.end();
    b.leaf(SyntaxKind::Text, "$");
    b.end();
    b.finish()
}

#[test]
fn hashtag_in_math_uses_math_scope() {
    let mut w = world(vec![func("page", vec![], false)]);
    w.math = vec![func("frac", vec![], false), constant("alpha", "symbol", "α")];
    let s = math_source(SyntaxKind::Hashtag, "#");
    let (from, cs) = autocomplete(&w, &s, 2, false).unwrap();
    assert_eq!(from, 2);
    let ls = labels(&cs);
    assert!(ls.contains(&"frac".to_string()));
    assert!(!ls.contains(&"page".to_string()));
    assert!(!ls.contains(&"alpha".to_string()));
}

#[test]
fn explicit_math_on_space() {
    let mut w = world(vec![]);
    w.math = vec![constant("alpha", "symbol", "α")];
    let s = math_source(SyntaxKind::Space, " ");
    let (_, cs) = autocomplete(&w, &s, 2, false).unwrap();
    assert!(cs.is_empty());
    let (from, cs) = autocomplete(&w, &s, 2, true).unwrap();
    assert_eq!(from, 2);
    assert_eq!(labels(&cs), vec!["alpha", "subscript", "superscript", "fraction"]);
    assert_eq!(find(&cs, "subscript").apply.as_deref(), Some("${x}_${2:2}"));
}

#[test]
fn call_without_known_callee_offers_nothing() {
    let w = world(vec![constant("f", "integer", "1")]);
    let s = empty_call_source("f");
    let (from, cs) = autocomplete(&w, &s, 3, true).unwrap();
    assert_eq!(from, 3);
    assert!(cs.is_empty());
}

#[test]
fn unresolved_import_offers_nothing() {
    let mut w = import_world();
    w.modules.clear();
    let s = import_source(false);
    let (from, cs) = autocomplete(&w, &s, 17, true).unwrap();
    assert_eq!(from, 17);
    assert!(cs.is_empty());
}

#[test]
fn settable_only_in_set_rule_args() {
    // `#set f()` offers the settable parameters only.
    let w = world(vec![func(
        "f",
        vec![
            param("fill", CastInfo::Any, false, true, true),
            param("body", CastInfo::Any, false, true, false),
        ],
        false,
    )]);
    let mut b = SourceBuilder::new(SyntaxKind::Markup);
    b.leaf(SyntaxKind::Hashtag, "#");
    b.start(SyntaxKind::SetRule);
    b.leaf(SyntaxKind::SetKeyword, "set");
    b.leaf(SyntaxKind::Space, " ");
    b.leaf(SyntaxKind::Ident, "f");
    b.start(SyntaxKind::Args);
    b.leaf(SyntaxKind::LeftParen, "(");
    b.leaf(SyntaxKind::RightParen, ")");
    b.end();
    b.end();
    let s = b.finish();
    let (from, cs) = autocomplete(&w, &s, 7, false).unwrap();
    assert_eq!(from, 7);
    assert_eq!(labels(&cs), vec!["fill"]);
}

#[test]
fn local_names_come_in_ascending_order() {
    // `#let b = 1; #let a = 2; #x`: the locals come sorted, after the builtins.
    let w = world(vec![func("page", vec![], false)]);
    let mut b = SourceBuilder::new(SyntaxKind::Markup);
    for name in ["b", "a"] {
        b.leaf(SyntaxKind::Hashtag, "#");
        b.start(SyntaxKind::LetBinding);
        b.leaf(SyntaxKind::LetKeyword, "let");
        b.leaf(SyntaxKind::Space, " ");
        b.leaf(SyntaxKind::Ident, name);
        b.end();
        b.leaf(SyntaxKind::Text, "; ");
    }
    b.leaf(SyntaxKind::Hashtag, "#");
    b.leaf(SyntaxKind::Ident, "x");
    let s = b.finish();
    // "#let b; #let a; #x" is 18 characters long.
    let (from, cs) = autocomplete(&w, &s, 18, false).unwrap();
    assert_eq!(from, 17);
    assert_eq!(labels(&cs)[..3].to_vec(), vec!["page", "a", "b"]);
}

#[test]
fn identifier_directly_in_formula_is_not_code() {
    // An identifier whose parent is the formula itself.
    let w = world(vec![constant("pi", "float", "3.14")]);
    let mut b = SourceBuilder::new(SyntaxKind::Markup);
    b.start(SyntaxKind::Formula);
    b.leaf(SyntaxKind::Text, "$");
    b.leaf(SyntaxKind::Ident, "p");
    b.leaf(SyntaxKind::Text, "$");
    b.end();
    let s = b.finish();
    let (from, cs) = autocomplete(&w, &s, 2, false).unwrap();
    assert_eq!(from, 2);
    assert!(cs.is_empty());
}

#[test]
fn leading_space_only_for_new_parameters() {
    let w = world(vec![func("f", vec![param("b", CastInfo::Any, false, true, false)], false)]);
    let s = call_after_named_source(false);
    let mut ctx = CompletionContext::new(&w, &s, 8, false).unwrap();
    ctx.snippet_completion("earlier", "earlier", "Before.");
    let exclude: Vec<String> = vec![];
    ide_complete::modes::param_completions(&mut ctx, &"f".to_string(), false, &exclude);
    assert_eq!(ctx.completions[0].apply.as_deref(), Some("earlier"));
    assert_eq!(ctx.completions[1].apply.as_deref(), Some(" b: ${}"));
}

#[test]
fn world_with_repeated_names_is_rejected() {
    let w = world(vec![func("f", vec![], true), func("g", vec![], false)]);
    assert!(w.is_well_formed());
    let w = world(vec![func("f", vec![], true), func("f", vec![], false)]);
    assert!(!w.is_well_formed());
    let mut w = import_world();
    assert!(w.is_well_formed());
    w.modules[0].scope.push(constant("a", "integer", "3"));
    assert!(!w.is_well_formed());
}

#[test]
fn completions_can_be_cloned() {
    let w = world(vec![func("page", vec![], false)]);
    let s = hashtag_source();
    let (_, cs) = autocomplete(&w, &s, 4, false).unwrap();
    let copy = cs[0].clone();
    assert_eq!(copy.label, cs[0].label);
    assert_eq!(copy.apply, cs[0].apply);
    assert!(format!("{:?}", copy).contains("page"));
}

#[test]
fn text_order_is_by_character() {
    assert!(text_less("a", "b"));
    assert!(text_less("a", "ab"));
    assert!(!text_less("ab", "a"));
    assert!(!text_less("a", "a"));
    assert!(text_less("Z", "a"));
}
