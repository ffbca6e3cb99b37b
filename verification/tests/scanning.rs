use rusted_shut::office::build_argument_list;
use rusted_shut::strings::{trim_spaces, ScopeDeclaration, StringCursor, StringExtension};

fn scopes3() -> Vec<ScopeDeclaration> {
    vec![
        ScopeDeclaration {
            begin: '{',
            end: '}',
        },
        ScopeDeclaration {
            begin: '[',
            end: ']',
        },
        ScopeDeclaration {
            begin: '(',
            end: ')',
        },
    ]
}

#[test]
fn scoped_slice() {
    let str = "(this is a { nested [ slice ]})";
    let result = str.scoped_slice(&scopes3()).unwrap();
    assert_eq!(result, "this is a { nested [ slice ]}");
}

#[test]
fn scoped_split() {
    let information = [
        (
            "this string, should split",
            ("this string", Some(" should split")),
            false,
        ),
        (
            "this string shouldn't split",
            ("this string shouldn't split", None),
            false,
        ),
        (
            "this string {should split}, Hello",
            ("this string {should split}", Some(", Hello")),
            true,
        ),
        (
            "this string {shouldn't, split}",
            ("this string {shouldn't, split}", None),
            false,
        ),
    ];

    for (str, expected, include_haystack) in information {
        let out = str.scoped_split(
            &',',
            &[ScopeDeclaration {
                begin: '{',
                end: '}',
            }],
            include_haystack,
            1,
        );

        assert_eq!(expected, out);
    }
}

#[test]
fn index_out_of_scope_unbalanced() {
    assert_eq!("(never closed".index_out_of_scope(&scopes3()), None);
    assert_eq!("no scope here".index_out_of_scope(&scopes3()), None);
}

#[test]
fn cursor_walks_characters() {
    let mut cursor = StringCursor::new("ab");
    assert_eq!(cursor.position(), 0);
    assert_eq!(cursor.peak(), Some("a"));
    assert_eq!(cursor.next(), Some("a"));
    assert_eq!(cursor.next(), Some("b"));
    assert_eq!(cursor.next(), None);
}

#[test]
fn cursor_next_if_advances_on_match() {
    let mut cursor = StringCursor::new("abc");
    assert!(cursor.next_if('a'));
    assert!(!cursor.next_if('a'));
    assert_eq!(cursor.position(), 1);
    assert_eq!(cursor.remaining(), "bc");
    let sub = cursor.new_from_underlying(None, false);
    assert_eq!(sub.position(), 0);
    assert_eq!(sub.remaining(), "a");
}

#[test]
fn scope_declaration_tests_both_ends() {
    let d = ScopeDeclaration {
        begin: '<',
        end: '>',
    };
    assert!(d.begin('<'));
    assert!(!d.begin('>'));
    assert!(d.end('>'));
    assert!(!d.end('<'));
}

#[test]
fn argument_lists_split_at_top_level_commas() {
    let args = build_argument_list("id: azur:emitter, type: block, pureData: true").unwrap();
    assert_eq!(
        args,
        vec![
            ("id".to_string(), "azur:emitter".to_string()),
            ("type".to_string(), "block".to_string()),
            ("pureData".to_string(), "true".to_string()),
        ]
    );

    let nested = build_argument_list("id: azur:x, shape: {a, b}").unwrap();
    assert_eq!(
        nested,
        vec![
            ("id".to_string(), "azur:x".to_string()),
            ("shape".to_string(), "{a, b}".to_string()),
        ]
    );

    assert!(build_argument_list("no colon here").is_err());
}

#[test]
fn trimming_strips_both_ends() {
    assert_eq!(trim_spaces("  padded \t"), "padded");
    assert_eq!(trim_spaces("plain"), "plain");
    assert_eq!(trim_spaces("   "), "");
    assert_eq!(trim_spaces(""), "");
}
