use lekhani_latex::lexer::{tokenize, tokenize_line, Token, TokenType};

fn kinds(ts: &[Token]) -> Vec<(TokenType, usize, usize)> {
    ts.iter().map(|t| (t.token_type, t.start, t.end)).collect()
}

#[test]
fn tokenize_mixed_document() {
    let t = tokenize("\\section{Intro} $x$ % note\nabc");
    assert_eq!(
        kinds(&t),
        vec![
            (TokenType::Command, 0, 8),
            (TokenType::OpenBrace, 8, 9),
            (TokenType::Text, 9, 14),
            (TokenType::CloseBrace, 14, 15),
            (TokenType::Text, 15, 16),
            (TokenType::MathDollar, 16, 17),
            (TokenType::Text, 17, 18),
            (TokenType::MathDollar, 18, 19),
            (TokenType::Text, 19, 20),
            (TokenType::Comment, 20, 26),
            (TokenType::Text, 26, 30),
        ]
    );
}

#[test]
fn tokenize_line_comment_needs_end_of_text() {
    let t = tokenize_line("\\section{Intro} $x$ % note\nabc");
    let last = t.last().unwrap();
    assert_eq!((last.token_type, last.start, last.end), (TokenType::Text, 19, 30));
    let t = tokenize_line("a % rest");
    assert_eq!(kinds(&t), vec![(TokenType::Text, 0, 2), (TokenType::Comment, 2, 8)]);
}

#[test]
fn double_dollars_and_escapes() {
    assert_eq!(
        kinds(&tokenize("$$a$$")),
        vec![(TokenType::MathDoubleDollar, 0, 2), (TokenType::Text, 2, 3), (TokenType::MathDoubleDollar, 3, 5)]
    );
    assert_eq!(kinds(&tokenize("\\%")), vec![(TokenType::Command, 0, 2)]);
    assert_eq!(kinds(&tokenize("\\é")), vec![(TokenType::Command, 0, 3)]);
    assert_eq!(kinds(&tokenize("a\\")), vec![(TokenType::Text, 0, 2)]);
}

#[test]
fn tokens_cover_text_without_gaps() {
    let text = "\\begin{document}\n% c\n$$x$$ {y} \\\\ z\n";
    let t = tokenize(text);
    assert_eq!(t[0].start, 0);
    assert_eq!(t.last().unwrap().end, text.len());
    for w in t.windows(2) {
        assert_eq!(w[0].end, w[1].start);
        assert!(w[0].start < w[0].end);
    }
}

#[test]
fn empty_text_has_no_tokens() {
    assert!(tokenize("").is_empty());
    assert!(tokenize_line("").is_empty());
}

#[test]
fn one_line_texts_tokenize_alike() {
    for text in ["\\emph{é} $x$ % note", "a % rest", "\\\\ {}[]", "% only", ""] {
        assert_eq!(kinds(&tokenize_line(text)), kinds(&tokenize(text)));
    }
}
