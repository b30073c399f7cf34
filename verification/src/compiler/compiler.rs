//! The front end as a whole: for now, the scan of a source into its tokens.

use crate::compiler::grammar::{join_lines, line_texts, scan_all, token_views};
use crate::compiler::laws::lemma_scan_advances;
use crate::compiler::lexer::Lexer;
use crate::compiler::token::{ConfigError, LexicalError, Token, TokenType};
use vstd::prelude::*;

verus! {

/// Why a run of the front end ended before the end of the source.
#[derive(Clone, Copy, Debug, PartialEq, Eq, Structural)]
pub enum CompileError {
    /// The source cannot be scanned at all.
    Config(ConfigError),
    /// The scan met text that is no token.
    Lexical(LexicalError),
}

/// What a run of the front end gives: the tokens it read, in their order, and
/// the error that ended it, if one did.
#[derive(Debug)]
pub struct Compilation {
    pub tokens: Vec<Token>,
    pub error: Option<CompileError>,
}

/// Scans a source, given as its lines, from its first line to its end.
///
/// The result holds every token up to and including the end-of-file token, or,
/// where the scan meets an error, the tokens before the error and the error
/// itself. A source without any line gives no token and a configuration error.
pub fn compile(lines: Vec<String>) -> (r: Compilation)
    ensures
        lines.len() == 0 ==> r.tokens@.len() == 0 && r.error == Some(
            CompileError::Config(ConfigError::EmptySource),
        ),
        lines.len() > 0 ==> ({
            let scan = scan_all(join_lines(line_texts(lines@)), 0, 1);
            &&& token_views(r.tokens@) == scan.tokens
            &&& match r.error {
                None => scan.fault is None,
                Some(CompileError::Lexical(error)) => scan.fault == Some(error@),
                Some(CompileError::Config(_)) => false,
            }
        }),
{
    let ghost text = join_lines(line_texts(lines@));
    let mut lexer = match Lexer::new(lines) {
        Ok(lexer) => lexer,
        Err(error) => {
            return Compilation { tokens: Vec::new(), error: Some(CompileError::Config(error)) };
        },
    };
    let mut tokens: Vec<Token> = Vec::new();
    assert(token_views(tokens@) + scan_all(text, 0, 1).tokens =~= scan_all(text, 0, 1).tokens);
    loop
        invariant
            lines.len() > 0,
            text == join_lines(line_texts(lines@)),
            lexer.text() == text,
            0 <= lexer.position() <= text.len(),
            scan_all(text, 0, 1).tokens == token_views(tokens@) + scan_all(
                text,
                lexer.position(),
                lexer.line(),
            ).tokens,
            scan_all(text, 0, 1).fault == scan_all(text, lexer.position(), lexer.line()).fault,
        decreases text.len() - lexer.position(),
    {
        let ghost before = token_views(tokens@);
        let ghost from = lexer.position();
        let ghost line = lexer.line();
        let ghost rest = scan_all(text, lexer.position(), lexer.line());
        match lexer.get_token() {
            Ok(token) => {
                let done = match token.token_type {
                    TokenType::EndOfFile => true,
                    _ => false,
                };
                let ghost view = token@;
                tokens.push(token);
                proof {
                    assert(token_views(tokens@) =~= before.push(view));
                    lemma_scan_advances(text, from, line);
                    if done {
                        assert(before + rest.tokens =~= token_views(tokens@));
                    } else {
                        let after = scan_all(text, lexer.position(), lexer.line());
                        assert(before + rest.tokens =~= token_views(tokens@) + after.tokens);
                    }
                }
                if done {
                    return Compilation { tokens, error: None };
                }
            },
            Err(error) => {
                proof {
                    assert(before + rest.tokens =~= token_views(tokens@));
                }
                return Compilation { tokens, error: Some(CompileError::Lexical(error)) };
            },
        }
    }
}

} // verus!
