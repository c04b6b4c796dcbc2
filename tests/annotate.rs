use commenter::engine::{annotate, classify, synthesize, LineRole, TransformState};
use commenter::safety::{check_diff, verify_insertions, DiffEntry, DiffTag};
use commenter::shapes::Patterns;
use commenter::text::join_lines;
use commenter::transform;

fn lines(v: &[&str]) -> Vec<String> {
    v.iter().map(|s| s.to_string()).collect()
}

fn split(text: &str) -> Vec<String> {
    text.lines().map(|s| s.to_string()).collect()
}

fn block_count(text: &str) -> usize {
    text.matches(" * Decorator Usage:").count()
}

fn kept_in_order(original: &[String], rewritten: &[String]) -> bool {
    let mut j = 0;
    for line in original {
        while j < rewritten.len() && &rewritten[j] != line {
            j += 1;
        }
        if j == rewritten.len() {
            return false;
        }
        j += 1;
    }
    true
}

#[test]
fn single_decorator_class_gets_comment() {
    let p = Patterns::new();
    let r = transform(&p, &lines(&["@Injectable()", "class {Foo}"]));
    assert_eq!(
        r.ok().unwrap(),
        "//AUTOCOMMENT\n/**\n * Decorator Usage:\n * ```\n * @Injectable() \n * ```\n */\n//ENDCOMMENT\n@Injectable()\nclass {Foo}\n"
    );
}

#[test]
fn multiline_decorator_summary_and_verbatim() {
    let p = Patterns::new();
    let r = transform(&p, &lines(&["@Module(", "  imports: []", ")", "class {Bar}"]));
    assert_eq!(
        r.ok().unwrap(),
        "//AUTOCOMMENT\n/**\n * Decorator Usage:\n * ```\n * @Module(\n  imports: []\n) \n * ```\n */\n//ENDCOMMENT\n@Module(\n  imports: []\n)\nclass {Bar}\n"
    );
}

#[test]
fn undecorated_field_unchanged() {
    let p = Patterns::new();
    let r = transform(&p, &lines(&["private name?: string;"]));
    assert_eq!(r.ok().unwrap(), "private name?: string;\n");
}

#[test]
fn undecorated_class_unchanged() {
    let p = Patterns::new();
    let input = lines(&["export class Foo {", "  readonly id: number;", "}"]);
    let r = transform(&p, &input);
    assert_eq!(r.ok().unwrap(), "export class Foo {\n  readonly id: number;\n}\n");
}

#[test]
fn empty_input_gives_empty_text() {
    let p = Patterns::new();
    assert_eq!(transform(&p, &Vec::new()).ok().unwrap(), "");
}

#[test]
fn several_decorators_share_one_block() {
    let p = Patterns::new();
    let input = lines(&["class A {", "  @Input()", "  @Output() x", "  public name: string;", "}"]);
    let r = transform(&p, &input).ok().unwrap();
    assert_eq!(
        r,
        "class A {\n//AUTOCOMMENT\n/**\n * Decorator Usage:\n * ```\n * @Input() \n * @Output() x \n * ```\n */\n//ENDCOMMENT\n  @Input()\n  @Output() x\n  public name: string;\n}\n"
    );
    assert_eq!(block_count(&r), 1);
}

#[test]
fn output_keeps_every_original_line_in_order() {
    let p = Patterns::new();
    let input = lines(&[
        "import { Component } from 'core';",
        "",
        "@Component({",
        "  selector: 'app',",
        "})",
        "export class AppComponent {",
        "  @Input() title: string;",
        "  @Input()",
        "  count: number;",
        "  plain: boolean;",
        "}",
    ]);
    let r = transform(&p, &input).ok().unwrap();
    assert!(kept_in_order(&input, &split(&r)));
    assert_eq!(block_count(&r), 2);
}

#[test]
fn second_run_adds_no_block() {
    let p = Patterns::new();
    let input = lines(&["@Injectable()", "class {Foo}", "", "@Input()", "  name: string;"]);
    let first = transform(&p, &input).ok().unwrap();
    let second = transform(&p, &split(&first)).ok().unwrap();
    assert_eq!(block_count(&first), 2);
    assert_eq!(second, first);
}

#[test]
fn second_run_of_multiline_decorator_adds_no_block() {
    let p = Patterns::new();
    let first = transform(&p, &lines(&["@Module(", "  imports: []", ")", "class {Bar}"])).ok().unwrap();
    let second = transform(&p, &split(&first)).ok().unwrap();
    assert_eq!(second, first);
}

#[test]
fn guarded_region_is_not_reparsed() {
    let p = Patterns::new();
    let input = lines(&["//AUTOCOMMENT", "@NotADecorator()", "//ENDCOMMENT", "x = 1;"]);
    let mut st = TransformState::new();
    let mut out = String::new();
    for l in &input {
        st.step(&p, l, &mut out);
    }
    assert_eq!(out, "x = 1;\n");
}

#[test]
fn decorator_without_declaration_is_rejected() {
    let p = Patterns::new();
    let r = transform(&p, &lines(&["@Input()", "foo();"]));
    assert_eq!(r.err().unwrap().line, "@Input()\n");
}

#[test]
fn nested_parenthesis_ends_decorator_early_and_is_rejected() {
    let p = Patterns::new();
    let input = lines(&["@Component({", "  a: foo()", "})", "class X {"]);
    let written = annotate(&p, &input);
    assert!(written.starts_with("})\n//AUTOCOMMENT\n"));
    assert!(transform(&p, &input).is_err());
}

#[test]
fn verifier_rejects_omitted_line() {
    let original = "a\nb\nc\n".to_string();
    let rewritten = "a\nc\n".to_string();
    let r = verify_insertions(&original, &rewritten);
    assert_eq!(r.err().unwrap().line, "b\n");
}

#[test]
fn verifier_accepts_insertions() {
    let original = "a\nb\n".to_string();
    let rewritten = "x\na\ny\nb\nz\n".to_string();
    assert!(verify_insertions(&original, &rewritten).is_ok());
}

#[test]
fn verifier_rejects_reordering() {
    let original = "a\nb\n".to_string();
    let rewritten = "b\na\n".to_string();
    assert!(verify_insertions(&original, &rewritten).is_err());
}

#[test]
fn check_diff_reports_first_removal() {
    let entries = vec![
        DiffEntry { tag: DiffTag::Unchanged, text: "a\n".to_string() },
        DiffEntry { tag: DiffTag::Added, text: "x\n".to_string() },
        DiffEntry { tag: DiffTag::Removed, text: "b\n".to_string() },
        DiffEntry { tag: DiffTag::Removed, text: "c\n".to_string() },
    ];
    assert_eq!(check_diff(&entries).err().unwrap().line, "b\n");
    let kept = vec![
        DiffEntry { tag: DiffTag::Unchanged, text: "a\n".to_string() },
        DiffEntry { tag: DiffTag::Added, text: "x\n".to_string() },
    ];
    assert!(check_diff(&kept).is_ok());
}

#[test]
fn classify_roles() {
    let p = Patterns::new();
    let c = |t: &str, g: bool, m: bool, pend: bool| classify(&p, &t.to_string(), g, m, pend);
    assert_eq!(c("//AUTOCOMMENT", false, true, true), LineRole::GuardStart);
    assert_eq!(c("//ENDCOMMENT", true, false, false), LineRole::GuardEnd);
    assert_eq!(c("@Input()", true, false, false), LineRole::Guarded);
    assert_eq!(c("x)", false, true, false), LineRole::MultilineDecoratorEnd);
    assert_eq!(c("x: 1,", false, true, false), LineRole::MultilineDecoratorContinuation);
    assert_eq!(c("@Component({", false, false, false), LineRole::MultilineDecoratorStart);
    assert_eq!(c("@Input()", false, false, false), LineRole::SingleLineDecorator);
    assert_eq!(c("@", false, false, false), LineRole::Plain);
    assert_eq!(c("name: string;", false, false, true), LineRole::Declaration);
    assert_eq!(c("readonly  id : number;", false, false, true), LineRole::Declaration);
    assert_eq!(c("export class Foo {", false, false, true), LineRole::Declaration);
    assert_eq!(c("name: string;", false, false, false), LineRole::Plain);
    assert_eq!(c("name: string", false, false, true), LineRole::Plain);
    assert_eq!(c("foo();", false, false, true), LineRole::Plain);
}

#[test]
fn decorator_lines_are_trimmed_in_summary_only() {
    let p = Patterns::new();
    let r = transform(&p, &lines(&["  @Input()  ", "  name: string;"])).ok().unwrap();
    assert_eq!(
        r,
        "//AUTOCOMMENT\n/**\n * Decorator Usage:\n * ```\n * @Input() \n * ```\n */\n//ENDCOMMENT\n  @Input()  \n  name: string;\n"
    );
}

#[test]
fn synthesize_block_layout() {
    let r = synthesize(&lines(&["\t@A() ", "@B(\n  1\n)"]), &"class C".to_string());
    assert_eq!(
        r,
        "//AUTOCOMMENT\n/**\n * Decorator Usage:\n * ```\n * @A() \n * @B(\n  1\n) \n * ```\n */\n//ENDCOMMENT\n\t@A() \n@B(\n  1\n)\nclass C\n"
    );
}

#[test]
fn join_lines_appends_newlines() {
    assert_eq!(join_lines(&lines(&["a", "", "b"])), "a\n\nb\n");
}

#[test]
fn multiline_decorator_of_four_lines_is_one_unit() {
    let p = Patterns::new();
    let input = lines(&["  @Component({", "    selector: 'x',", "    template: ''", "  })", "  export class X {"]);
    let r = transform(&p, &input).ok().unwrap();
    assert_eq!(
        r,
        "//AUTOCOMMENT\n/**\n * Decorator Usage:\n * ```\n * @Component({\n    selector: 'x',\n    template: ''\n  }) \n * ```\n */\n//ENDCOMMENT\n  @Component({\n    selector: 'x',\n    template: ''\n  })\n  export class X {\n"
    );
    assert_eq!(block_count(&r), 1);
}
