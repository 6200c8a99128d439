//! Where the parser's messages go: the user interface, and the context shown with an error.
use vstd::prelude::*;
use std::io::Write;
use crate::parser::ParseError;
use crate::parser::slices_view;
use crate::parser::total_bytes;
use crate::render::spaces;
use crate::render::strings_view;
use crate::text::byte_len;

verus! {

/// Receives what the parser shows its user.
pub trait UserInterface {
    /// Show a line of the help message.
    fn print(&self, message: String);

    /// Show an error.
    fn print_error(&self, error: ParseError);

    /// Show where in the input an error lies.
    fn print_error_context(&self, error_context: ErrorContext);
}

/// `writeln!` to standard output.
#[verifier::external_body]
fn write_out(text: String) {
    let _ = writeln!(std::io::stdout(), "{}", text);
}

/// `writeln!` to standard error.
#[verifier::external_body]
fn write_err(text: String) {
    let _ = writeln!(std::io::stderr(), "{}", text);
}

/// The console: messages go to standard output, errors and their context to standard error.
#[derive(Debug, Default)]
pub struct ConsoleInterface {}

impl UserInterface for ConsoleInterface {
    fn print(&self, message: String) {
        write_out(message);
    }

    fn print_error(&self, error: ParseError) {
        write_err(error.to_string());
    }

    fn print_error_context(&self, error_context: ErrorContext) {
        write_err(error_context.to_string());
    }
}

/// The tokens joined by single spaces.
pub open spec fn joined(tokens: Seq<Seq<char>>) -> Seq<char>
    decreases tokens.len(),
{
    if tokens.len() == 0 {
        Seq::empty()
    } else if tokens.len() == 1 {
        tokens[0]
    } else {
        joined(tokens.drop_last()) + seq![' '] + tokens.last()
    }
}

/// The bytes of the first `n` tokens, and how many of the spaces between tokens come before
/// the byte `offset`.
pub open spec fn context_counts(tokens: Seq<Seq<char>>, offset: nat, n: nat) -> (nat, nat)
    decreases n,
{
    if n == 0 || n > tokens.len() {
        (0, 0)
    } else {
        let prev = context_counts(tokens, offset, (n - 1) as nat);
        let total = prev.0 + byte_len(tokens[n - 1]);
        (total, prev.1 + if n < tokens.len() && total <= offset { 1nat } else { 0nat })
    }
}

/// The column of the caret under the tokens joined by spaces.
pub open spec fn caret_column(tokens: Seq<Seq<char>>, offset: nat) -> nat {
    let counts = context_counts(tokens, offset, tokens.len());
    let last = if counts.0 > 0 { (counts.0 - 1) as nat } else { 0 };
    (if offset < last { offset } else { last }) + counts.1
}

/// The text of an error context: the tokens joined by spaces, then a caret under the offset.
pub open spec fn context_text(tokens: Seq<Seq<char>>, offset: nat) -> Seq<char> {
    joined(tokens) + seq!['\n'] + spaces(caret_column(tokens, offset)) + seq!['^']
}

/// The tokens of the input and the offset (in bytes) of an error within them.
#[derive(Debug, PartialEq, Eq)]
pub struct ErrorContext {
    offset: usize,
    tokens: Vec<String>,
}

/// The abstract value of an error context.
pub struct ContextSpec {
    pub offset: nat,
    pub tokens: Seq<Seq<char>>,
}

impl View for ErrorContext {
    type V = ContextSpec;

    closed spec fn view(&self) -> ContextSpec {
        ContextSpec { offset: self.offset as nat, tokens: strings_view(self.tokens@) }
    }
}

proof fn lemma_context_counts(tokens: Seq<Seq<char>>, offset: nat, n: nat)
    requires
        n <= tokens.len(),
    ensures
        context_counts(tokens, offset, n).0 == total_bytes(tokens.take(n as int)),
        context_counts(tokens, offset, n).1 <= n,
    decreases n,
{
    if n > 0 {
        lemma_context_counts(tokens, offset, (n - 1) as nat);
        assert(tokens.take(n as int).drop_last() =~= tokens.take(n - 1));
    }
}

proof fn lemma_total_bytes_take(t: Seq<Seq<char>>, n: int)
    requires
        0 <= n <= t.len(),
    ensures
        total_bytes(t.take(n)) <= total_bytes(t),
    decreases t.len(),
{
    if n < t.len() {
        assert(t.drop_last().take(n) =~= t.take(n));
        lemma_total_bytes_take(t.drop_last(), n);
    } else {
        assert(t.take(n) =~= t);
    }
}

impl ErrorContext {
    #[verifier::type_invariant]
    spec fn inv(self) -> bool {
        total_bytes(strings_view(self.tokens@)) + self.tokens@.len() <= usize::MAX
    }

    /// The context of an error at `offset` in `tokens`.
    pub fn new(offset: usize, tokens: &[&str]) -> (r: Self)
        requires
            total_bytes(slices_view(tokens@)) + tokens@.len() <= usize::MAX,
        ensures
            r@ == (ContextSpec { offset: offset as nat, tokens: slices_view(tokens@) }),
    {
        let mut owned: Vec<String> = Vec::new();
        let mut i: usize = 0;
        while i < tokens.len()
            invariant
                i <= tokens@.len(),
                strings_view(owned@) == slices_view(tokens@).take(i as int),
            decreases tokens.len() - i,
        {
            let ghost before = strings_view(owned@);
            owned.push(tokens[i].to_owned());
            assert(strings_view(owned@) =~= before.push(slices_view(tokens@)[i as int]));
            assert(slices_view(tokens@).take(i + 1) =~= slices_view(tokens@).take(i as int).push(slices_view(tokens@)[i as int]));
            i = i + 1;
        }
        assert(slices_view(tokens@).take(i as int) =~= slices_view(tokens@));
        ErrorContext { offset, tokens: owned }
    }

    /// The offset of the error, in bytes of the tokens.
    pub fn offset(&self) -> (r: usize)
        ensures
            r == self@.offset,
    {
        self.offset
    }

    /// The tokens of the input.
    pub fn tokens(&self) -> (r: &Vec<String>)
        ensures
            strings_view(r@) == self@.tokens,
    {
        &self.tokens
    }

    /// The context as displayed: the tokens joined by spaces, and a caret under the offset.
    pub fn to_string(&self) -> (r: String)
        ensures
            r@ == context_text(self@.tokens, self@.offset),
    {
        proof {
            use_type_invariant(self);
        }
        let ghost ts = strings_view(self.tokens@);
        let mut tokens_length: usize = 0;
        let mut projection: Vec<char> = Vec::new();
        let mut projection_offset: usize = 0;
        let n = self.tokens.len();
        let mut i: usize = 0;
        while i < n
            invariant
                i <= n,
                n == ts.len(),
                ts == strings_view(self.tokens@),
                total_bytes(ts) + ts.len() <= usize::MAX,
                (tokens_length as nat, projection_offset as nat) == context_counts(ts, self.offset as nat, i as nat),
                projection@ == joined(ts.take(i as int)) + (if 0 < i < n { seq![' '] } else { Seq::empty() }),
            decreases n - i,
        {
            proof {
                lemma_context_counts(ts, self.offset as nat, (i + 1) as nat);
                lemma_total_bytes_take(ts, i + 1);
                assert(ts.take(i + 1).drop_last() =~= ts.take(i as int));
            }
            let token = &self.tokens[i];
            let length = token.as_str().len();
            assert(byte_len(ts[i as int]) == length);
            tokens_length = tokens_length + length;
            let ghost before = projection@;
            crate::text::append_str(&mut projection, token.as_str());
            if i + 1 < n {
                projection.push(' ');
                if tokens_length <= self.offset {
                    projection_offset = projection_offset + 1;
                }
            }
            i = i + 1;
            assert(projection@ =~= joined(ts.take(i as int)) + (if 0 < i < n { seq![' '] } else { Seq::<char>::empty() }));
        }
        assert(ts.take(n as int) =~= ts);
        let last = if tokens_length > 0 { tokens_length - 1 } else { 0 };
        proof {
            lemma_context_counts(ts, self.offset as nat, n as nat);
        }
        let column = (if self.offset < last { self.offset } else { last }) + projection_offset;
        projection.push('\n');
        crate::text::append_spaces(&mut projection, column);
        projection.push('^');
        crate::text::string_of(&projection)
    }
}

} // verus!
