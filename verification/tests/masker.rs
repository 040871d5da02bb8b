use harper::mask::Span;
use harper::masker::{deconstruct_command, CommandComponents, Masker};

fn spans_of(text: &str) -> Vec<(usize, usize, String)> {
    let source: Vec<char> = text.chars().collect();
    let mask = Masker::default().create_mask(&source);
    mask.iter_allowed(&source)
        .into_iter()
        .map(|(span, content)| (span.start, span.end, content.iter().collect()))
        .collect()
}

#[test]
fn ignores_many_comment_signs() {
    let source: Vec<_> = "%%%".chars().collect();
    let mask = Masker::default().create_mask(&source);

    assert_eq!(mask.iter_allowed(&source).into_iter().next(), None)
}

#[test]
fn ignores_single_comment_sign() {
    let source: Vec<_> = "%".chars().collect();
    let mask = Masker::default().create_mask(&source);

    assert_eq!(mask.iter_allowed(&source).into_iter().next(), None)
}

#[test]
fn ignores_single_comment_sign_in_phrase() {
    let source: Vec<_> = "this is a comment: % here it is!".chars().collect();
    let mask = Masker::default().create_mask(&source);

    assert_eq!(mask.iter_allowed(&source).len(), 2)
}

#[test]
fn ignores_latex_command() {
    let source: Vec<_> = r"this is a command: \LaTeX there it was!".chars().collect();
    let mask = Masker::default().create_mask(&source);

    assert_eq!(mask.iter_allowed(&source).len(), 2)
}

#[test]
fn emits_all_command_components_correctly() {
    let source: Vec<_> = r"\begin[some]{math}".chars().collect();
    let CommandComponents {
        name,
        square_content,
        curly_content,
    } = deconstruct_command(&source).unwrap();

    assert_eq!(name.iter().collect::<String>(), "begin");
    assert_eq!(square_content.unwrap().iter().collect::<String>(), "some");
    assert_eq!(curly_content.unwrap().iter().collect::<String>(), "math");
}

#[test]
fn emits_command_curly_component_correctly() {
    let source: Vec<_> = r"\begin{math}".chars().collect();
    let CommandComponents {
        name,
        square_content,
        curly_content,
    } = deconstruct_command(&source).unwrap();

    assert_eq!(name.iter().collect::<String>(), "begin");
    assert_eq!(square_content, None);
    assert_eq!(curly_content.unwrap().iter().collect::<String>(), "math");
}

#[test]
fn emits_command_square_component_correctly() {
    let source: Vec<_> = r"\begin[some]".chars().collect();
    let CommandComponents {
        name,
        square_content,
        curly_content,
    } = deconstruct_command(&source).unwrap();

    assert_eq!(name.iter().collect::<String>(), "begin");
    assert_eq!(square_content.unwrap().iter().collect::<String>(), "some");
    assert_eq!(curly_content, None);
}

#[test]
fn emits_section_correctly() {
    let source: Vec<_> = r"\section{Energy and Environment}".chars().collect();
    let CommandComponents {
        name,
        square_content,
        curly_content,
    } = deconstruct_command(&source).unwrap();

    assert_eq!(name.iter().collect::<String>(), "section");
    assert_eq!(square_content, None);
    assert_eq!(
        curly_content.unwrap().iter().collect::<String>(),
        "Energy and Environment"
    );
}

#[test]
fn plain_text_is_one_allowed_span() {
    assert_eq!(spans_of("hello world"), vec![(0, 11, "hello world".to_string())]);
    assert_eq!(spans_of(""), vec![]);
}

#[test]
fn math_mode_is_masked_with_its_dollars() {
    assert_eq!(
        spans_of("a $x+y$ b"),
        vec![(0, 2, "a ".to_string()), (7, 9, " b".to_string())]
    );
}

#[test]
fn unclosed_math_mode_masks_the_rest() {
    assert_eq!(spans_of("ab $x y"), vec![(0, 3, "ab ".to_string())]);
}

#[test]
fn content_command_keeps_its_argument() {
    assert_eq!(
        spans_of(r"\section{Energy} rest"),
        vec![(9, 15, "Energy".to_string()), (16, 21, " rest".to_string())]
    );
}

#[test]
fn other_command_is_masked_up_to_its_closing_brace() {
    // The closing brace of a non-content command is left allowed.
    assert_eq!(spans_of(r"\begin{math}x"), vec![(11, 13, "}x".to_string())]);
}

#[test]
fn equation_is_masked_up_to_its_end() {
    assert_eq!(
        spans_of(r"a\begin{equation}x\end{equation}b"),
        vec![(0, 1, "a".to_string()), (31, 33, "}b".to_string())]
    );
}

#[test]
fn command_with_square_argument_is_masked() {
    assert_eq!(
        spans_of(r"x \cite[p. 3] y"),
        vec![(0, 2, "x ".to_string()), (13, 15, " y".to_string())]
    );
}

#[test]
fn try_create_mask_refuses_trailing_backslash() {
    let source: Vec<char> = r"abc\".chars().collect();
    assert!(Masker::default().try_create_mask(&source).is_none());
}

#[test]
fn try_create_mask_refuses_unclosed_equation() {
    let source: Vec<char> = r"\begin{equation} x + y".chars().collect();
    assert!(Masker::default().try_create_mask(&source).is_none());
}

#[test]
fn try_create_mask_agrees_with_create_mask() {
    let source: Vec<char> = r"Text $m$ and \emph{this} % c".chars().collect();
    let masker = Masker::default();
    let a = masker.try_create_mask(&source).unwrap();
    let b = masker.create_mask(&source);
    assert_eq!(a.allowed_spans(), b.allowed_spans());
    assert_eq!(
        b.allowed_spans(),
        &[Span::new(0, 5), Span::new(8, 13), Span::new(19, 23), Span::new(24, 25), Span::new(26, 28)][..]
    );
}

#[test]
fn deconstruct_rejects_text_without_backslash() {
    let source: Vec<char> = "begin{x}".chars().collect();
    assert!(deconstruct_command(&source).is_none());
    let empty: Vec<char> = Vec::new();
    assert!(deconstruct_command(&empty).is_none());
}

#[test]
fn deconstruct_takes_first_name_character_as_is() {
    let source: Vec<char> = r"\%abc".chars().collect();
    let c = deconstruct_command(&source).unwrap();
    assert_eq!(c.name.iter().collect::<String>(), "%abc");
    let source: Vec<char> = r"\a1".chars().collect();
    let c = deconstruct_command(&source).unwrap();
    assert_eq!(c.name.iter().collect::<String>(), "a");
}

#[test]
fn deconstruct_unclosed_square_bracket() {
    let source: Vec<char> = r"\cite[p. 3".chars().collect();
    let c = deconstruct_command(&source).unwrap();
    assert_eq!(c.square_content.unwrap().iter().collect::<String>(), "p. 3");
    assert_eq!(c.curly_content, None);
}
