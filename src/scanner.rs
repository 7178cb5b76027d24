use vstd::prelude::*;
use vstd::slice::slice_to_vec;
use vstd::string::*;
use vstd::utf8::*;

use crate::bytes::{all_ascii, decodes_to, lemma_ascii_valid_utf8, Buffer};
use crate::classes::{
    is_comment_start_char, is_digit_byte, is_digit_char, is_group_start_char,
    is_identifier_byte, is_identifier_start_byte, is_identifier_start_char, is_join_byte,
    is_join_start_char, is_number_start_byte, is_number_start_char, is_quote_byte, is_sign_byte,
    is_sign_start_char, is_text_start_char, is_whitespace_char, is_word_byte, is_ws_byte,
};
use crate::error::{err_kind, ErrKind, Error};
use crate::ops::{join_from_text, sign_from_text, JoinOp, SignOp};
use crate::token::{tok_of, Tok, TokKind, Token};

verus! {

/// The byte classes whose maximal runs form a token.
#[derive(Clone, Copy, PartialEq, Eq, Structural)]
pub enum RunClass {
    Whitespace,
    Identifier,
    Number,
    Sign,
    Join,
}

pub open spec fn in_run_class(c: RunClass, b: u8) -> bool {
    match c {
        RunClass::Whitespace => is_ws_byte(b),
        RunClass::Identifier => is_identifier_byte(b),
        RunClass::Number => is_digit_byte(b) || b == 0x2e,
        RunClass::Sign => is_sign_byte(b),
        RunClass::Join => is_join_byte(b),
    }
}

impl RunClass {
    fn contains(&self, b: u8) -> (r: bool)
        ensures
            r == in_run_class(*self, b),
    {
        match self {
            RunClass::Whitespace => is_whitespace_char(b),
            RunClass::Identifier => is_identifier_start_char(b) || is_digit_char(b) || b == 0x2e
                || b == 0x3a,
            RunClass::Number => is_digit_char(b) || b == 0x2e,
            RunClass::Sign => is_sign_start_char(b),
            RunClass::Join => is_join_start_char(b),
        }
    }
}

/// Where the maximal run of class `c` that starts at `i` ends.
pub open spec fn run_end(s: Seq<u8>, i: int, c: RunClass) -> int
    decreases s.len() - i,
{
    if 0 <= i < s.len() && in_run_class(c, s[i]) {
        run_end(s, i + 1, c)
    } else {
        i
    }
}

/// The index of the quote `q` that closes a text whose body starts at `i`:
/// the first `q` not preceded by a backslash (`prev` is the byte before `i`,
/// 0 at the start of the body). -1 when there is none.
pub open spec fn quote_close(s: Seq<u8>, q: u8, i: int, prev: u8) -> int
    decreases s.len() - i,
{
    if i < 0 || i >= s.len() {
        -1
    } else if s[i] == q && prev != 0x5c {
        i
    } else {
        quote_close(s, q, i + 1, s[i])
    }
}

/// Text with every backslash-quote pair replaced by the quote, left to right.
pub open spec fn unescape(s: Seq<u8>, q: u8) -> Seq<u8>
    decreases s.len(),
{
    if s.len() == 0 {
        s
    } else if s.len() >= 2 && s[0] == 0x5c && s[1] == q {
        seq![q] + unescape(s.subrange(2, s.len() as int), q)
    } else {
        seq![s[0]] + unescape(s.drop_first(), q)
    }
}

/// The index of the `)` that closes a group whose body starts at `i`, with
/// `depth` brackets open; quoted text (quote `q`, 0 outside text) hides
/// brackets. -1 when the input ends first.
pub open spec fn group_close(s: Seq<u8>, i: int, depth: int, q: u8, prev: u8) -> int
    decreases s.len() - i,
{
    if i < 0 || i >= s.len() {
        -1
    } else if q != 0 {
        if s[i] == q && prev != 0x5c {
            group_close(s, i + 1, depth, 0, 0)
        } else {
            group_close(s, i + 1, depth, q, s[i])
        }
    } else if s[i] == 0x28 {
        group_close(s, i + 1, depth + 1, 0, 0)
    } else if is_quote_byte(s[i]) {
        group_close(s, i + 1, depth, s[i], 0)
    } else if s[i] == 0x29 {
        if depth <= 1 {
            i
        } else {
            group_close(s, i + 1, depth - 1, 0, 0)
        }
    } else {
        group_close(s, i + 1, depth, 0, 0)
    }
}

/// The index of the first newline at or after `i`, or the length.
pub open spec fn line_end(s: Seq<u8>, i: int) -> int
    decreases s.len() - i,
{
    if 0 <= i < s.len() && s[i] != 0x0a {
        line_end(s, i + 1)
    } else {
        i
    }
}

/// The shape of an identifier: an optional leading `@`, `#` or `_`, then
/// word bytes, dots and colons, ending in a word byte.
pub open spec fn identifier_shape(s: Seq<u8>) -> bool {
    &&& s.len() > 0
    &&& is_word_byte(s[s.len() - 1])
    &&& (is_word_byte(s[0]) || s[0] == 0x2e || s[0] == 0x3a || s[0] == 0x40 || s[0] == 0x23)
    &&& forall|k: int|
        1 <= k < s.len() ==> is_word_byte(#[trigger] s[k]) || s[k] == 0x2e || s[k] == 0x3a
}

/// The shape of a number: an optional `-`, then digits with at most one `.`,
/// neither empty nor ending in `.`.
pub open spec fn number_shape(s: Seq<u8>) -> bool {
    let st: int = if s.len() > 0 && s[0] == 0x2d {
        1
    } else {
        0
    };
    &&& st < s.len()
    &&& s[s.len() - 1] != 0x2e
    &&& forall|k: int| st <= k < s.len() ==> is_digit_byte(#[trigger] s[k]) || s[k] == 0x2e
    &&& forall|j: int, k: int|
        st <= j < s.len() && st <= k < s.len() && #[trigger] s[j] == 0x2e && #[trigger] s[k]
            == 0x2e ==> j == k
}

/// The regular expression that identifiers are checked against.
pub open spec fn identifier_pattern() -> Seq<char> {
    "^[\\@\\#\\_]?[\\w\\.\\:]*\\w+$"@
}

/// Relies on `regex::Regex::new` and `regex::Regex::is_match`: the identifier
/// pattern compiles, and on text of identifier-run bytes (where `\w` is a
/// letter, digit or `_`) it matches exactly the identifier shape.
#[verifier::external_body]
fn regex_is_match(pattern: &str, text: &str) -> (r: Option<bool>)
    ensures
        pattern@ == identifier_pattern() && (forall|k: int|
            0 <= k < text.spec_bytes().len() ==> is_identifier_byte(
                #[trigger] text.spec_bytes()[k],
            )) ==> r == Some(identifier_shape(text.spec_bytes())),
{
    match regex::Regex::new(pattern) {
        Ok(re) => Some(re.is_match(text)),
        Err(_) => None,
    }
}

/// Relies on `str::trim`: the result depends on the characters alone.
#[verifier::external_body]
fn trim_text(s: &str) -> (r: String)
    ensures
        r@ == trimmed(s@),
{
    s.trim().to_string()
}

/// The text with leading and trailing whitespace removed.
pub uninterp spec fn trimmed(s: Seq<char>) -> Seq<char>;

/// Checks a run of identifier bytes against the identifier shape.
fn is_identifier(literal: &str) -> (r: bool)
    requires
        forall|k: int|
            0 <= k < literal.spec_bytes().len() ==> is_identifier_byte(
                #[trigger] literal.spec_bytes()[k],
            ),
    ensures
        r == identifier_shape(literal.spec_bytes()),
{
    match regex_is_match("^[\\@\\#\\_]?[\\w\\.\\:]*\\w+$", literal) {
        Some(m) => m,
        None => false,
    }
}

/// Checks that a literal is a well-formed number.
pub fn is_number(literal: &str) -> (r: bool)
    ensures
        r == number_shape(literal.spec_bytes()),
{
    let b = literal.as_bytes();
    let n = b.len();
    let st: usize = if n > 0 && b[0] == 0x2d {
        1
    } else {
        0
    };
    let mut i: usize = st;
    let mut dot: Option<usize> = None;
    while i < n
        invariant
            b@ == literal.spec_bytes(),
            n == b@.len(),
            st <= i <= n,
            st == (if n > 0 && b@[0] == 0x2d {
                1int
            } else {
                0int
            }),
            forall|k: int| st <= k < i ==> is_digit_byte(#[trigger] b@[k]) || b@[k] == 0x2e,
            dot is None ==> forall|k: int| st <= k < i ==> #[trigger] b@[k] != 0x2e,
            dot matches Some(d) ==> st <= d < i && b@[d as int] == 0x2e && forall|k: int|
                st <= k < i && #[trigger] b@[k] == 0x2e ==> k == d,
        decreases n - i,
    {
        let c = b[i];
        if is_digit_char(c) {
        } else if c == 0x2e {
            match dot {
                Some(d) => {
                    assert(b@[d as int] == 0x2e && b@[i as int] == 0x2e && d != i);
                    return false;
                },
                None => {
                    dot = Some(i);
                },
            }
        } else {
            assert(!(is_digit_byte(b@[i as int]) || b@[i as int] == 0x2e));
            return false;
        }
        i = i + 1;
    }
    st < n && b[n - 1] != 0x2e
}

/// Checks that a literal is one of the sign operators.
pub fn is_sign_operator(literal: &str) -> (r: bool)
    ensures
        r == sign_from_text(literal@) is Some,
{
    SignOp::from_str(literal).is_some()
}

/// Checks that a literal is one of the join operators.
pub fn is_join_operator(literal: &str) -> (r: bool)
    ensures
        r == join_from_text(literal@) is Some,
{
    JoinOp::from_str(literal).is_some()
}

/// The token text made from `bytes`: a `Buffer` error where they are not
/// valid UTF-8, otherwise a token whose literal is their decoding.
pub open spec fn literal_outcome(bytes: Seq<u8>, r: Result<Token, Error>) -> bool {
    if valid_utf8(bytes) {
        r is Ok && decodes_to(bytes, r->Ok_0.lit())
    } else {
        r is Err && r->Err_0 is Buffer
    }
}

/// A maximal run of class `c` from `c0`, accepted exactly when `accept`
/// holds of it (otherwise an `Invalid` error); the cursor ends after the run.
pub open spec fn run_outcome(
    s: Seq<u8>,
    c0: int,
    c1: int,
    c: RunClass,
    accept: bool,
    r: Result<Token, Error>,
) -> bool {
    &&& c1 == run_end(s, c0, c)
    &&& accept ==> literal_outcome(s.subrange(c0, c1), r)
    &&& !accept ==> r is Err && r->Err_0 is Invalid
}

pub open spec fn whitespace_post(s: Seq<u8>, c0: int, c1: int, r: Result<Token, Error>) -> bool {
    &&& run_outcome(s, c0, c1, RunClass::Whitespace, true, r)
    &&& r is Ok ==> r->Ok_0 is Ws
}

pub open spec fn identifier_post(s: Seq<u8>, c0: int, c1: int, r: Result<Token, Error>) -> bool {
    &&& run_outcome(
        s,
        c0,
        c1,
        RunClass::Identifier,
        identifier_shape(s.subrange(c0, run_end(s, c0, RunClass::Identifier))),
        r,
    )
    &&& r is Ok ==> r->Ok_0 is Identifier
}

/// A number takes its first byte unconditionally, then a run of digits and dots.
pub open spec fn number_post(s: Seq<u8>, c0: int, c1: int, r: Result<Token, Error>) -> bool {
    &&& c1 == run_end(s, c0 + 1, RunClass::Number)
    &&& number_shape(s.subrange(c0, c1)) ==> literal_outcome(s.subrange(c0, c1), r)
    &&& !number_shape(s.subrange(c0, c1)) ==> r is Err && r->Err_0 is Invalid
    &&& r is Ok ==> r->Ok_0 is Number
}

pub open spec fn sign_post(s: Seq<u8>, c0: int, c1: int, r: Result<Token, Error>) -> bool {
    let e = run_end(s, c0, RunClass::Sign);
    &&& run_outcome(
        s,
        c0,
        c1,
        RunClass::Sign,
        valid_utf8(s.subrange(c0, e)) && sign_from_text(decode_utf8(s.subrange(c0, e))) is Some,
        r,
    )
    &&& r is Ok ==> r->Ok_0 is Sign
}

pub open spec fn join_post(s: Seq<u8>, c0: int, c1: int, r: Result<Token, Error>) -> bool {
    let e = run_end(s, c0, RunClass::Join);
    &&& run_outcome(
        s,
        c0,
        c1,
        RunClass::Join,
        valid_utf8(s.subrange(c0, e)) && join_from_text(decode_utf8(s.subrange(c0, e))) is Some,
        r,
    )
    &&& r is Ok ==> r->Ok_0 is Join
}

/// Quoted text from the quote at `c0`: kept whole with `preserve`, otherwise
/// without its quotes and with escaped quotes unescaped.
pub open spec fn text_post(
    s: Seq<u8>,
    c0: int,
    c1: int,
    preserve: bool,
    r: Result<Token, Error>,
) -> bool {
    let q = s[c0];
    let j = quote_close(s, q, c0 + 1, 0);
    &&& j < 0 ==> c1 == s.len() && r is Err && r->Err_0 is Invalid
    &&& j >= 0 ==> c1 == j + 1 && literal_outcome(
        if preserve {
            s.subrange(c0, j + 1)
        } else {
            unescape(s.subrange(c0 + 1, j), q)
        },
        r,
    )
    &&& r is Ok ==> r->Ok_0 is Text
}

/// A group from the `(` at `c0`: its literal is the body up to the matching `)`.
pub open spec fn group_post(s: Seq<u8>, c0: int, c1: int, r: Result<Token, Error>) -> bool {
    let j = group_close(s, c0 + 1, 1, 0, 0);
    &&& j < 0 ==> c1 == s.len() && r is Err && r->Err_0 is Invalid
    &&& j >= 0 ==> c1 == j + 1 && literal_outcome(s.subrange(c0 + 1, j), r)
    &&& r is Ok ==> r->Ok_0 is Group
}

/// A comment: `//`, then the rest of the line (the newline is consumed but
/// not kept), trimmed.
pub open spec fn comment_post(s: Seq<u8>, c0: int, c1: int, r: Result<Token, Error>) -> bool {
    let e = line_end(s, c0 + 2);
    if s[c0] != 0x2f {
        c1 == c0 + 1 && r is Err && r->Err_0 is Invalid
    } else if c0 + 1 >= s.len() {
        c1 == c0 + 1 && r is Err && r->Err_0 is Invalid
    } else if s[c0 + 1] != 0x2f {
        c1 == c0 + 2 && r is Err && r->Err_0 is Invalid
    } else {
        &&& c1 == (if e < s.len() {
            e + 1
        } else {
            e
        })
        &&& valid_utf8(s.subrange(c0 + 2, e)) ==> r is Ok && r->Ok_0 is Comment && r->Ok_0.lit()
            == trimmed(decode_utf8(s.subrange(c0 + 2, e)))
        &&& !valid_utf8(s.subrange(c0 + 2, e)) ==> r is Err && r->Err_0 is Buffer
    }
}

/// What one scan from cursor `c0` yields and where it leaves the cursor,
/// dispatched on the byte under the cursor.
pub open spec fn scan_post(s: Seq<u8>, c0: int, c1: int, r: Result<Token, Error>) -> bool {
    if c0 >= s.len() {
        c1 == c0 && r is Ok && r->Ok_0 is Eof && r->Ok_0.lit() == Seq::<char>::empty()
    } else {
        let b = s[c0];
        if is_ws_byte(b) {
            whitespace_post(s, c0, c1, r)
        } else if b == 0x28 {
            group_post(s, c0, c1, r)
        } else if is_identifier_start_byte(b) {
            identifier_post(s, c0, c1, r)
        } else if is_number_start_byte(b) {
            number_post(s, c0, c1, r)
        } else if is_quote_byte(b) {
            text_post(s, c0, c1, false, r)
        } else if is_sign_byte(b) {
            sign_post(s, c0, c1, r)
        } else if is_join_byte(b) {
            join_post(s, c0, c1, r)
        } else if b == 0x2f {
            comment_post(s, c0, c1, r)
        } else {
            c1 == c0 + 1 && r is Err && r->Err_0 is Unexpected
        }
    }
}

/// A lexical scanner over a fixed input with a single cursor.
pub struct Scanner {
    buffer: Vec<u8>,
    pos: usize,
}

impl Scanner {
    /// The input bytes.
    pub closed spec fn input(&self) -> Seq<u8> {
        self.buffer@
    }

    /// The index of the next byte to read.
    pub closed spec fn cursor(&self) -> int {
        self.pos as int
    }

    pub open spec fn wf(&self) -> bool {
        0 <= self.cursor() <= self.input().len()
    }

    /// A scanner at the start of `text`.
    pub fn new(text: &str) -> (r: Scanner)
        ensures
            r.input() == text.spec_bytes(),
            r.cursor() == 0,
            r.wf(),
    {
        Scanner { buffer: slice_to_vec(text.as_bytes()), pos: 0 }
    }

    /// The input bytes.
    pub fn buffer(&self) -> (r: &Vec<u8>)
        ensures
            r@ == self.input(),
    {
        &self.buffer
    }

    /// The next byte, advancing the cursor; `None` at the end of the input.
    fn read(&mut self) -> (r: Option<u8>)
        requires
            old(self).wf(),
        ensures
            final(self).wf(),
            final(self).input() == old(self).input(),
            old(self).cursor() < old(self).input().len() ==> r == Some(
                old(self).input()[old(self).cursor()],
            ) && final(self).cursor() == old(self).cursor() + 1,
            old(self).cursor() >= old(self).input().len() ==> r is None && final(self).cursor()
                == old(self).cursor(),
    {
        if self.pos >= self.buffer.len() {
            return None;
        }
        let ch = self.buffer[self.pos];
        self.pos = self.pos + 1;
        Some(ch)
    }

    /// Moves the cursor back by one, unless it is at the start.
    fn unread(&mut self)
        requires
            old(self).wf(),
        ensures
            final(self).wf(),
            final(self).input() == old(self).input(),
            final(self).cursor() == if old(self).cursor() > 0 {
                old(self).cursor() - 1
            } else {
                0
            },
    {
        if self.pos > 0 {
            self.pos = self.pos - 1;
        }
    }

    /// Copies the maximal run of class `c` under the cursor into `buf`.
    fn read_run(&mut self, c: RunClass, buf: &mut Buffer)
        requires
            old(self).wf(),
        ensures
            final(self).wf(),
            final(self).input() == old(self).input(),
            final(self).cursor() == run_end(old(self).input(), old(self).cursor(), c),
            final(buf)@ == old(buf)@ + old(self).input().subrange(
                old(self).cursor(),
                final(self).cursor(),
            ),
            old(self).cursor() <= final(self).cursor(),
            old(self).cursor() < old(self).input().len() && in_run_class(
                c,
                old(self).input()[old(self).cursor()],
            ) ==> final(self).cursor() > old(self).cursor(),
            forall|k: int|
                old(self).cursor() <= k < final(self).cursor() ==> in_run_class(
                    c,
                    #[trigger] old(self).input()[k],
                ),
    {
        let ghost s = self.buffer@;
        let ghost c0 = self.pos as int;
        let ghost b0 = buf@;
        while self.pos < self.buffer.len() && c.contains(self.buffer[self.pos])
            invariant
                self.buffer@ == s,
                0 <= c0 <= self.pos <= s.len(),
                buf@ == b0 + s.subrange(c0, self.pos as int),
                run_end(s, c0, c) == run_end(s, self.pos as int, c),
                forall|k: int| c0 <= k < self.pos ==> in_run_class(c, #[trigger] s[k]),
            decreases s.len() - self.pos,
        {
            buf.write_byte(self.buffer[self.pos]);
            self.pos = self.pos + 1;
            assert(s.subrange(c0, self.pos as int) =~= s.subrange(c0, self.pos - 1).push(
                s[self.pos - 1],
            ));
        }
    }

    /// Copies `input[from..to]` into `buf`.
    fn copy_into(&self, from: usize, to: usize, buf: &mut Buffer)
        requires
            from <= to <= self.input().len(),
        ensures
            final(buf)@ == old(buf)@ + self.input().subrange(from as int, to as int),
    {
        let ghost b0 = buf@;
        let mut i: usize = from;
        while i < to
            invariant
                from <= i <= to <= self.buffer@.len(),
                buf@ == b0 + self.buffer@.subrange(from as int, i as int),
            decreases to - i,
        {
            buf.write_byte(self.buffer[i]);
            i = i + 1;
            assert(self.buffer@.subrange(from as int, i as int) =~= self.buffer@.subrange(
                from as int,
                i - 1,
            ).push(self.buffer@[i - 1]));
        }
    }

    /// Copies `input[from..to]` into `buf`, each backslash-quote pair as the quote.
    fn unescape_into(&self, from: usize, to: usize, q: u8, buf: &mut Buffer)
        requires
            from <= to <= self.input().len(),
        ensures
            final(buf)@ == old(buf)@ + unescape(self.input().subrange(from as int, to as int), q),
    {
        let ghost s = self.buffer@;
        let ghost b0 = buf@;
        let mut i: usize = from;
        while i < to
            invariant
                from <= i <= to <= s.len(),
                s == self.buffer@,
                b0 + unescape(s.subrange(from as int, to as int), q) == buf@ + unescape(
                    s.subrange(i as int, to as int),
                    q,
                ),
            decreases to - i,
        {
            let ghost t = s.subrange(i as int, to as int);
            let ghost old_buf = buf@;
            if i + 1 < to && self.buffer[i] == 0x5c && self.buffer[i + 1] == q {
                buf.write_byte(q);
                assert(t.subrange(2, t.len() as int) =~= s.subrange(i + 2, to as int));
                assert(old_buf + unescape(t, q) =~= buf@ + unescape(
                    s.subrange(i + 2, to as int),
                    q,
                ));
                i = i + 2;
            } else {
                buf.write_byte(self.buffer[i]);
                assert(t.drop_first() =~= s.subrange(i + 1, to as int));
                assert(old_buf + unescape(t, q) =~= buf@ + unescape(
                    s.subrange(i + 1, to as int),
                    q,
                ));
                i = i + 1;
            }
        }
        assert(s.subrange(to as int, to as int) =~= Seq::<u8>::empty());
        assert(buf@ + Seq::<u8>::empty() =~= buf@);
    }

    /// Scans a run of whitespace.
    fn scan_whitespace(&mut self) -> (r: Result<Token, Error>)
        requires
            old(self).wf(),
        ensures
            final(self).wf(),
            final(self).input() == old(self).input(),
            whitespace_post(old(self).input(), old(self).cursor(), final(self).cursor(), r),
            old(self).cursor() < old(self).input().len() && in_run_class(
                RunClass::Whitespace,
                old(self).input()[old(self).cursor()],
            ) ==> final(self).cursor() > old(self).cursor(),
    {
        let ghost s = self.buffer@;
        let ghost c0 = self.pos as int;
        let mut buf = Buffer::new();
        self.read_run(RunClass::Whitespace, &mut buf);
        assert(buf@ =~= s.subrange(c0, self.pos as int));
        match buf.to_string() {
            Ok(t) => Ok(Token::Ws(t)),
            Err(e) => Err(e),
        }
    }

    /// Scans the run of identifier bytes and checks its shape.
    fn scan_identifier(&mut self) -> (r: Result<Token, Error>)
        requires
            old(self).wf(),
        ensures
            final(self).wf(),
            final(self).input() == old(self).input(),
            identifier_post(old(self).input(), old(self).cursor(), final(self).cursor(), r),
            old(self).cursor() < old(self).input().len() && in_run_class(
                RunClass::Identifier,
                old(self).input()[old(self).cursor()],
            ) ==> final(self).cursor() > old(self).cursor(),
    {
        let ghost s = self.buffer@;
        let ghost c0 = self.pos as int;
        let mut buf = Buffer::new();
        self.read_run(RunClass::Identifier, &mut buf);
        let ghost bytes = buf@;
        assert(bytes =~= s.subrange(c0, self.pos as int));
        proof {
            assert forall|k: int| 0 <= k < bytes.len() implies #[trigger] bytes[k] < 0x80 by {
                assert(bytes[k] == s[c0 + k]);
            }
            lemma_ascii_valid_utf8(bytes);
        }
        let literal = match buf.to_string() {
            Ok(t) => t,
            Err(e) => return Err(e),
        };
        proof {
            decode_utf8_encode_utf8(bytes);
            assert forall|k: int| 0 <= k < bytes.len() implies is_identifier_byte(
                #[trigger] bytes[k],
            ) by {
                assert(bytes[k] == s[c0 + k]);
            }
        }
        if !is_identifier(literal.as_str()) {
            return Err(Error::Invalid(String::from_str("Invalid identifier ").concat(literal.as_str())));
        }
        Ok(Token::Identifier(literal))
    }

    /// Scans a number: its first byte (a sign or a digit), then digits and dots.
    fn scan_number(&mut self) -> (r: Result<Token, Error>)
        requires
            old(self).wf(),
            old(self).cursor() < old(self).input().len(),
            is_number_start_byte(old(self).input()[old(self).cursor()]),
        ensures
            final(self).wf(),
            final(self).input() == old(self).input(),
            number_post(old(self).input(), old(self).cursor(), final(self).cursor(), r),
            final(self).cursor() > old(self).cursor(),
    {
        let ghost s = self.buffer@;
        let ghost c0 = self.pos as int;
        let mut buf = Buffer::new();
        if let Some(b) = self.read() {
            buf.write_byte(b);
        }
        self.read_run(RunClass::Number, &mut buf);
        let ghost bytes = buf@;
        assert(bytes =~= s.subrange(c0, self.pos as int));
        proof {
            assert forall|k: int| 0 <= k < bytes.len() implies #[trigger] bytes[k] < 0x80 by {
                assert(bytes[k] == s[c0 + k]);
            }
            lemma_ascii_valid_utf8(bytes);
        }
        let literal = match buf.to_string() {
            Ok(t) => t,
            Err(e) => return Err(e),
        };
        proof {
            decode_utf8_encode_utf8(bytes);
        }
        if !is_number(literal.as_str()) {
            return Err(Error::Invalid(String::from_str("Invalid number ").concat(literal.as_str())));
        }
        Ok(Token::Number(literal))
    }

    /// Scans the run of sign bytes; it must be exactly one sign operator.
    fn scan_sign(&mut self) -> (r: Result<Token, Error>)
        requires
            old(self).wf(),
        ensures
            final(self).wf(),
            final(self).input() == old(self).input(),
            sign_post(old(self).input(), old(self).cursor(), final(self).cursor(), r),
            old(self).cursor() < old(self).input().len() && in_run_class(
                RunClass::Sign,
                old(self).input()[old(self).cursor()],
            ) ==> final(self).cursor() > old(self).cursor(),
    {
        let ghost s = self.buffer@;
        let ghost c0 = self.pos as int;
        let mut buf = Buffer::new();
        self.read_run(RunClass::Sign, &mut buf);
        let ghost bytes = buf@;
        assert(bytes =~= s.subrange(c0, self.pos as int));
        proof {
            assert forall|k: int| 0 <= k < bytes.len() implies #[trigger] bytes[k] < 0x80 by {
                assert(bytes[k] == s[c0 + k]);
            }
            lemma_ascii_valid_utf8(bytes);
        }
        let literal = match buf.to_string() {
            Ok(t) => t,
            Err(e) => return Err(e),
        };
        if !is_sign_operator(literal.as_str()) {
            return Err(Error::Invalid(String::from_str("Invalid sign operator ").concat(literal.as_str())));
        }
        Ok(Token::Sign(literal))
    }

    /// Scans the run of join bytes; it must be exactly one join operator.
    fn scan_join(&mut self) -> (r: Result<Token, Error>)
        requires
            old(self).wf(),
        ensures
            final(self).wf(),
            final(self).input() == old(self).input(),
            join_post(old(self).input(), old(self).cursor(), final(self).cursor(), r),
            old(self).cursor() < old(self).input().len() && in_run_class(
                RunClass::Join,
                old(self).input()[old(self).cursor()],
            ) ==> final(self).cursor() > old(self).cursor(),
    {
        let ghost s = self.buffer@;
        let ghost c0 = self.pos as int;
        let mut buf = Buffer::new();
        self.read_run(RunClass::Join, &mut buf);
        let ghost bytes = buf@;
        assert(bytes =~= s.subrange(c0, self.pos as int));
        proof {
            assert forall|k: int| 0 <= k < bytes.len() implies #[trigger] bytes[k] < 0x80 by {
                assert(bytes[k] == s[c0 + k]);
            }
            lemma_ascii_valid_utf8(bytes);
        }
        let literal = match buf.to_string() {
            Ok(t) => t,
            Err(e) => return Err(e),
        };
        if !is_join_operator(literal.as_str()) {
            return Err(Error::Invalid(String::from_str("Invalid join operator ").concat(literal.as_str())));
        }
        Ok(Token::Join(literal))
    }

    /// Scans quoted text up to its first unescaped matching quote. With
    /// `preserve` the literal keeps its quotes and escapes as written.
    fn scan_text(&mut self, preserve: bool) -> (r: Result<Token, Error>)
        requires
            old(self).wf(),
            old(self).cursor() < old(self).input().len(),
        ensures
            final(self).wf(),
            final(self).input() == old(self).input(),
            text_post(old(self).input(), old(self).cursor(), final(self).cursor(), preserve, r),
            final(self).cursor() > old(self).cursor(),
    {
        let ghost s = self.buffer@;
        let start = self.pos;
        // the opening quote decides which quote closes the text
        let q = match self.read() {
            Some(b) => b,
            None => return Err(Error::Invalid(String::from_str("Invalid quoted text"))),
        };
        let mut prev: u8 = 0;
        let mut closed = false;
        while !closed && self.pos < self.buffer.len()
            invariant
                self.buffer@ == s,
                start < self.pos <= s.len(),
                q == s[start as int],
                !closed ==> quote_close(s, q, start + 1, 0) == quote_close(
                    s,
                    q,
                    self.pos as int,
                    prev,
                ),
                closed ==> quote_close(s, q, start + 1, 0) == self.pos - 1 && self.pos >= start + 2,
            decreases s.len() - self.pos,
        {
            let ch = self.buffer[self.pos];
            self.pos = self.pos + 1;
            if ch == q && prev != 0x5c {
                closed = true;
            } else {
                prev = ch;
            }
        }
        if !closed {
            return Err(Error::Invalid(String::from_str("Invalid quoted text")));
        }
        let mut buf = Buffer::new();
        if preserve {
            self.copy_into(start, self.pos, &mut buf);
        } else {
            self.unescape_into(start + 1, self.pos - 1, q, &mut buf);
        }
        assert(buf@ =~= (if preserve {
            s.subrange(start as int, self.pos as int)
        } else {
            unescape(s.subrange(start + 1, self.pos - 1), q)
        }));
        match buf.to_string() {
            Ok(t) => Ok(Token::Text(t)),
            Err(e) => Err(e),
        }
    }

    /// Scans a parenthesized group up to its matching `)`, leaving brackets
    /// inside quoted text alone. The literal is the body without the outer
    /// brackets.
    fn scan_group(&mut self) -> (r: Result<Token, Error>)
        requires
            old(self).wf(),
            old(self).cursor() < old(self).input().len(),
        ensures
            final(self).wf(),
            final(self).input() == old(self).input(),
            group_post(old(self).input(), old(self).cursor(), final(self).cursor(), r),
            final(self).cursor() > old(self).cursor(),
            r is Ok ==> encode_utf8(r->Ok_0.lit()).len() < old(self).input().len(),
    {
        let ghost s = self.buffer@;
        let ghost c0 = self.pos as int;
        // the opening bracket is not part of the literal
        self.read();
        let mut depth: usize = 1;
        let mut q: u8 = 0;
        let mut prev: u8 = 0;
        let mut done = false;
        let mut buf = Buffer::new();
        assert(buf@ =~= s.subrange(c0 + 1, self.pos as int));
        while !done && self.pos < self.buffer.len()
            invariant
                self.buffer@ == s,
                0 <= c0 < self.pos <= s.len(),
                1 <= depth <= self.pos - c0,
                q == 0 ==> prev == 0,
                !done ==> group_close(s, c0 + 1, 1, 0, 0) == group_close(
                    s,
                    self.pos as int,
                    depth as int,
                    q,
                    prev,
                ) && buf@ == s.subrange(c0 + 1, self.pos as int),
                done ==> self.pos >= c0 + 2,
                done ==> group_close(s, c0 + 1, 1, 0, 0) == self.pos - 1 && buf@ == s.subrange(
                    c0 + 1,
                    self.pos - 1,
                ),
            decreases s.len() - self.pos,
        {
            let ch = self.buffer[self.pos];
            self.pos = self.pos + 1;
            assert(s.subrange(c0 + 1, self.pos as int) =~= s.subrange(c0 + 1, self.pos - 1).push(
                ch,
            ));
            if q != 0 {
                buf.write_byte(ch);
                if ch == q && prev != 0x5c {
                    q = 0;
                    prev = 0;
                } else {
                    prev = ch;
                }
            } else if is_group_start_char(ch) {
                depth = depth + 1;
                buf.write_byte(ch);
            } else if is_text_start_char(ch) {
                q = ch;
                prev = 0;
                buf.write_byte(ch);
            } else if ch == 0x29 {
                if depth == 1 {
                    done = true;
                } else {
                    depth = depth - 1;
                    buf.write_byte(ch);
                }
            } else {
                buf.write_byte(ch);
            }
        }
        if !done {
            return Err(Error::Invalid(String::from_str("Invalid formatted group - missing ").concat(
                decimal_string(depth).as_str(),
            ).concat(" closing bracket(s)")));
        }
        let ghost bytes = buf@;
        assert(bytes.len() == self.pos - c0 - 2);
        let text = buf.to_string();
        proof {
            if text is Ok {
                decode_utf8_encode_utf8(bytes);
                assert(encode_utf8(text->Ok_0@) == bytes);
                assert(bytes.len() < s.len());
            }
        }
        match text {
            Ok(t) => Ok(Token::Group(t)),
            Err(e) => Err(e),
        }
    }

    /// Scans a `//` comment to the end of its line; the literal is trimmed.
    fn scan_comment(&mut self) -> (r: Result<Token, Error>)
        requires
            old(self).wf(),
            old(self).cursor() < old(self).input().len(),
        ensures
            final(self).wf(),
            final(self).input() == old(self).input(),
            comment_post(old(self).input(), old(self).cursor(), final(self).cursor(), r),
            final(self).cursor() > old(self).cursor(),
    {
        let ghost s = self.buffer@;
        let ghost c0 = self.pos as int;
        let first = self.read();
        let first_ok = match first {
            Some(b) => is_comment_start_char(b),
            None => false,
        };
        if !first_ok {
            return Err(Error::Invalid(String::from_str("Invalid comment")));
        }
        let second = self.read();
        let second_ok = match second {
            Some(b) => is_comment_start_char(b),
            None => false,
        };
        if !second_ok {
            return Err(Error::Invalid(String::from_str("Invalid comment")));
        }
        let mut buf = Buffer::new();
        assert(buf@ =~= s.subrange(c0 + 2, self.pos as int));
        while self.pos < self.buffer.len() && self.buffer[self.pos] != 0x0a
            invariant
                self.buffer@ == s,
                0 <= c0,
                c0 + 2 <= self.pos <= s.len(),
                buf@ == s.subrange(c0 + 2, self.pos as int),
                line_end(s, c0 + 2) == line_end(s, self.pos as int),
            decreases s.len() - self.pos,
        {
            buf.write_byte(self.buffer[self.pos]);
            self.pos = self.pos + 1;
            assert(s.subrange(c0 + 2, self.pos as int) =~= s.subrange(c0 + 2, self.pos - 1).push(
                s[self.pos - 1],
            ));
        }
        if self.pos < self.buffer.len() {
            self.pos = self.pos + 1;
        }
        match buf.to_string() {
            Ok(t) => Ok(Token::Comment(trim_text(t.as_str()))),
            Err(e) => Err(e),
        }
    }

    /// Produces the next token, dispatching on the byte under the cursor.
    /// At the end of the input it yields `Eof`, and keeps doing so.
    pub fn scan(&mut self) -> (r: Result<Token, Error>)
        requires
            old(self).wf(),
        ensures
            final(self).wf(),
            final(self).input() == old(self).input(),
            scan_post(old(self).input(), old(self).cursor(), final(self).cursor(), r),
            r is Ok && !(r->Ok_0 is Eof) ==> final(self).cursor() > old(self).cursor(),
            r is Ok && r->Ok_0 is Group ==> encode_utf8(r->Ok_0.lit()).len() < old(
                self,
            ).input().len(),
    {
        let ch = match self.read() {
            Some(ch) => ch,
            None => return Ok(Token::Eof(String::new())),
        };
        if is_whitespace_char(ch) {
            self.unread();
            return self.scan_whitespace();
        }
        if is_group_start_char(ch) {
            self.unread();
            return self.scan_group();
        }
        if is_identifier_start_char(ch) {
            self.unread();
            return self.scan_identifier();
        }
        if is_number_start_char(ch) {
            self.unread();
            return self.scan_number();
        }
        if is_text_start_char(ch) {
            self.unread();
            return self.scan_text(false);
        }
        if is_sign_start_char(ch) {
            self.unread();
            return self.scan_sign();
        }
        if is_join_start_char(ch) {
            self.unread();
            return self.scan_join();
        }
        if is_comment_start_char(ch) {
            self.unread();
            return self.scan_comment();
        }
        Err(Error::Unexpected(String::from_str("Unexpected character")))
    }
}

/// The decimal digits of `n`.
pub open spec fn decimal(n: nat) -> Seq<char>
    decreases n,
{
    if n < 10 {
        seq![digit_char(n)]
    } else {
        decimal(n / 10).push(digit_char(n % 10))
    }
}

pub open spec fn digit_char(d: nat) -> char {
    (d + 48) as char
}

/// The text of one decimal digit.
fn digit_str(d: usize) -> (r: &'static str)
    requires
        d < 10,
    ensures
        r@ == seq![digit_char(d as nat)],
{
    proof {
        reveal_strlit("0");
        reveal_strlit("1");
        reveal_strlit("2");
        reveal_strlit("3");
        reveal_strlit("4");
        reveal_strlit("5");
        reveal_strlit("6");
        reveal_strlit("7");
        reveal_strlit("8");
        reveal_strlit("9");
    }
    match d {
        0 => "0",
        1 => "1",
        2 => "2",
        3 => "3",
        4 => "4",
        5 => "5",
        6 => "6",
        7 => "7",
        8 => "8",
        _ => "9",
    }
}

/// Writes `n` in decimal.
pub fn decimal_string(n: usize) -> (r: String)
    ensures
        r@ == decimal(n as nat),
{
    let mut digits: Vec<usize> = Vec::new();
    let mut m: usize = n;
    loop
        invariant_except_break
            decimal(n as nat) == decimal(m as nat) + digits@.reverse().map_values(
                |d: usize| digit_char(d as nat),
            ),
        invariant
            forall|k: int| 0 <= k < digits@.len() ==> #[trigger] digits@[k] < 10,
        ensures
            decimal(n as nat) == digits@.reverse().map_values(|d: usize| digit_char(d as nat)),
        decreases m,
    {
        let d = m % 10;
        let ghost before = digits@;
        digits.push(d);
        assert(digits@.reverse() =~= seq![d] + before.reverse());
        assert(digits@.reverse().map_values(|d: usize| digit_char(d as nat)) =~= seq![
            digit_char(d as nat),
        ] + before.reverse().map_values(|d: usize| digit_char(d as nat)));
        if m < 10 {
            assert(decimal(m as nat) =~= seq![digit_char(d as nat)]);
            break;
        }
        assert(decimal(m as nat) == decimal((m / 10) as nat).push(digit_char(d as nat)));
        m = m / 10;
    }
    let mut r = String::new();
    let mut i: usize = digits.len();
    assert(digits@.subrange(i as int, digits@.len() as int) =~= Seq::<usize>::empty());
    while i > 0
        invariant
            i <= digits@.len(),
            forall|k: int| 0 <= k < digits@.len() ==> #[trigger] digits@[k] < 10,
            r@ == digits@.subrange(i as int, digits@.len() as int).reverse().map_values(|d: usize| digit_char(d as nat)),
        decreases i,
    {
        i = i - 1;
        let ghost before = r@;
        r.append(digit_str(digits[i]));
        assert(digits@.subrange(i as int, digits@.len() as int) =~= seq![digits@[i as int]]
            + digits@.subrange(i + 1, digits@.len() as int));
        assert(digits@.subrange(i as int, digits@.len() as int).reverse() =~= digits@.subrange(
            i + 1,
            digits@.len() as int,
        ).reverse().push(digits@[i as int]));
        assert(r@ =~= digits@.subrange(i as int, digits@.len() as int).reverse().map_values(
            |d: usize| digit_char(d as nat),
        ));
    }
    assert(digits@.subrange(0, digits@.len() as int) =~= digits@);
    r
}

/// A run ends within the input, at or after where it starts.
pub proof fn lemma_run_end_bounds(s: Seq<u8>, i: int, c: RunClass)
    requires
        0 <= i <= s.len(),
    ensures
        i <= run_end(s, i, c) <= s.len(),
    decreases s.len() - i,
{
    if i < s.len() && in_run_class(c, s[i]) {
        lemma_run_end_bounds(s, i + 1, c);
    }
}

/// Two tokens of the same class with the same literal.
pub open spec fn same_token(a: Token, b: Token) -> bool {
    a.kind_text() == b.kind_text() && a.lit() == b.lit()
}

/// Two errors of the same kind.
pub open spec fn same_error_kind(a: Error, b: Error) -> bool {
    &&& (a is Buffer <==> b is Buffer)
    &&& (a is Unexpected <==> b is Unexpected)
    &&& (a is Invalid <==> b is Invalid)
    &&& (a is Empty <==> b is Empty)
    &&& (a is Incomplete <==> b is Incomplete)
}

/// A scan depends on nothing but the input and the cursor: two scans of the
/// same input from the same cursor yield the same token (or the same kind of
/// error) and leave the cursor at the same place.
pub proof fn lemma_scan_deterministic(
    s: Seq<u8>,
    c0: int,
    c1: int,
    r1: Result<Token, Error>,
    c2: int,
    r2: Result<Token, Error>,
)
    requires
        0 <= c0 <= s.len(),
        scan_post(s, c0, c1, r1),
        scan_post(s, c0, c2, r2),
    ensures
        c1 == c2,
        r1 is Ok <==> r2 is Ok,
        r1 is Ok ==> same_token(r1->Ok_0, r2->Ok_0),
        r1 is Err ==> same_error_kind(r1->Err_0, r2->Err_0),
{
}

/// Every byte of a run belongs to its class.
pub proof fn lemma_run_in_class(s: Seq<u8>, i: int, c: RunClass)
    requires
        0 <= i <= s.len(),
    ensures
        forall|k: int| i <= k < run_end(s, i, c) ==> in_run_class(c, #[trigger] s[k]),
    decreases s.len() - i,
{
    if i < s.len() && in_run_class(c, s[i]) {
        lemma_run_in_class(s, i + 1, c);
    }
}

/// The token made from literal bytes, or a `Buffer` error where they are not
/// valid UTF-8.
pub open spec fn lit_res(bytes: Seq<u8>, kind: TokKind) -> Result<Tok, ErrKind> {
    if valid_utf8(bytes) {
        Ok(Tok { kind, lit: decode_utf8(bytes) })
    } else {
        Err(ErrKind::Buffer)
    }
}

/// The model of a scan's result.
pub open spec fn scan_result_model(r: Result<Token, Error>) -> Result<Tok, ErrKind> {
    match r {
        Ok(t) => Ok(tok_of(t)),
        Err(e) => Err(err_kind(e)),
    }
}

/// One scan as a function of the input and the cursor: where the cursor ends
/// and what is produced.
pub open spec fn scan_fn(s: Seq<u8>, c0: int) -> (int, Result<Tok, ErrKind>) {
    if c0 >= s.len() {
        (c0, Ok(Tok { kind: TokKind::Eof, lit: Seq::empty() }))
    } else {
        let b = s[c0];
        if is_ws_byte(b) {
            let e = run_end(s, c0, RunClass::Whitespace);
            (e, lit_res(s.subrange(c0, e), TokKind::Ws))
        } else if b == 0x28 {
            let j = group_close(s, c0 + 1, 1, 0, 0);
            if j < 0 {
                (s.len() as int, Err(ErrKind::Invalid))
            } else {
                (j + 1, lit_res(s.subrange(c0 + 1, j), TokKind::Group))
            }
        } else if is_identifier_start_byte(b) {
            let e = run_end(s, c0, RunClass::Identifier);
            if identifier_shape(s.subrange(c0, e)) {
                (e, lit_res(s.subrange(c0, e), TokKind::Identifier))
            } else {
                (e, Err(ErrKind::Invalid))
            }
        } else if is_number_start_byte(b) {
            let e = run_end(s, c0 + 1, RunClass::Number);
            if number_shape(s.subrange(c0, e)) {
                (e, lit_res(s.subrange(c0, e), TokKind::Number))
            } else {
                (e, Err(ErrKind::Invalid))
            }
        } else if is_quote_byte(b) {
            let j = quote_close(s, b, c0 + 1, 0);
            if j < 0 {
                (s.len() as int, Err(ErrKind::Invalid))
            } else {
                (j + 1, lit_res(unescape(s.subrange(c0 + 1, j), b), TokKind::Text))
            }
        } else if is_sign_byte(b) {
            let e = run_end(s, c0, RunClass::Sign);
            let sub = s.subrange(c0, e);
            if valid_utf8(sub) && sign_from_text(decode_utf8(sub)) is Some {
                (e, Ok(Tok { kind: TokKind::Sign, lit: decode_utf8(sub) }))
            } else {
                (e, Err(ErrKind::Invalid))
            }
        } else if is_join_byte(b) {
            let e = run_end(s, c0, RunClass::Join);
            let sub = s.subrange(c0, e);
            if valid_utf8(sub) && join_from_text(decode_utf8(sub)) is Some {
                (e, Ok(Tok { kind: TokKind::Join, lit: decode_utf8(sub) }))
            } else {
                (e, Err(ErrKind::Invalid))
            }
        } else if b == 0x2f {
            let e = line_end(s, c0 + 2);
            if c0 + 1 >= s.len() {
                (c0 + 1, Err(ErrKind::Invalid))
            } else if s[c0 + 1] != 0x2f {
                (c0 + 2, Err(ErrKind::Invalid))
            } else {
                (
                    if e < s.len() {
                        e + 1
                    } else {
                        e
                    },
                    if valid_utf8(s.subrange(c0 + 2, e)) {
                        Ok(Tok { kind: TokKind::Comment, lit: trimmed(decode_utf8(s.subrange(c0 + 2, e))) })
                    } else {
                        Err(ErrKind::Buffer)
                    },
                )
            }
        } else {
            (c0 + 1, Err(ErrKind::Unexpected))
        }
    }
}

/// What `scan` does is exactly the scan function.
pub proof fn lemma_scan_fn(s: Seq<u8>, c0: int, c1: int, r: Result<Token, Error>)
    requires
        0 <= c0 <= s.len(),
        scan_post(s, c0, c1, r),
    ensures
        scan_fn(s, c0) == (c1, scan_result_model(r)),
{
}

} // verus!
