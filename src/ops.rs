use vstd::prelude::*;
use vstd::string::*;

verus! {

/// Whether two strings hold the same characters.
pub fn text_eq(a: &str, b: &str) -> (r: bool)
    ensures
        r == (a@ == b@),
{
    let n = a.unicode_len();
    if n != b.unicode_len() {
        return false;
    }
    let mut i: usize = 0;
    while i < n
        invariant
            n == a@.len(),
            n == b@.len(),
            i <= n,
            forall|k: int| 0 <= k < i ==> a@[k] == b@[k],
        decreases n - i,
    {
        if a.get_char(i) != b.get_char(i) {
            return false;
        }
        i = i + 1;
    }
    assert(a@ =~= b@);
    true
}

/// The boolean connector between two sibling expressions or groups.
#[derive(Clone, Copy, Debug, PartialEq, Eq, Structural)]
pub enum JoinOp {
    And,
    Or,
}

/// The canonical text of a join operator.
pub open spec fn join_text(op: JoinOp) -> Seq<char> {
    match op {
        JoinOp::And => "&&"@,
        JoinOp::Or => "||"@,
    }
}

/// The join operator whose canonical text is `s`, if any.
pub open spec fn join_from_text(s: Seq<char>) -> Option<JoinOp> {
    if s == "&&"@ {
        Some(JoinOp::And)
    } else if s == "||"@ {
        Some(JoinOp::Or)
    } else {
        None
    }
}

impl JoinOp {
    /// Reads a join operator from its canonical text.
    pub fn from_str(s: &str) -> (r: Option<JoinOp>)
        ensures
            r == join_from_text(s@),
    {
        if text_eq(s, "&&") {
            Some(JoinOp::And)
        } else if text_eq(s, "||") {
            Some(JoinOp::Or)
        } else {
            None
        }
    }

    /// The canonical text of the operator.
    pub fn as_str(&self) -> (r: &'static str)
        ensures
            r@ == join_text(*self),
    {
        match self {
            JoinOp::And => "&&",
            JoinOp::Or => "||",
        }
    }

    /// The printed form of the operator: its canonical text.
    pub fn to_string(&self) -> (r: String)
        ensures
            r@ == join_text(*self),
    {
        String::from_str(self.as_str())
    }
}

/// The comparison between the two operands of an expression. `Unset` only
/// stands for an operator not filled in yet.
#[derive(Clone, Copy, Debug, PartialEq, Eq, Structural)]
pub enum SignOp {
    Unset,
    Eq,
    Neq,
    Like,
    Nlike,
    Lt,
    Lte,
    Gt,
    Gte,
    AnyEq,
    AnyNeq,
    AnyLike,
    AnyNlike,
    AnyLt,
    AnyLte,
    AnyGt,
    AnyGte,
}

impl Default for SignOp {
    fn default() -> (r: SignOp)
        ensures
            r == SignOp::Unset,
    {
        SignOp::Unset
    }
}

/// The canonical text of a sign operator (empty for `Unset`).
pub open spec fn sign_text(op: SignOp) -> Seq<char> {
    match op {
        SignOp::Unset => ""@,
        SignOp::Eq => "="@,
        SignOp::Neq => "!="@,
        SignOp::Like => "~"@,
        SignOp::Nlike => "!~"@,
        SignOp::Lt => "<"@,
        SignOp::Lte => "<="@,
        SignOp::Gt => ">"@,
        SignOp::Gte => ">="@,
        SignOp::AnyEq => "?="@,
        SignOp::AnyNeq => "?!="@,
        SignOp::AnyLike => "?~"@,
        SignOp::AnyNlike => "?!~"@,
        SignOp::AnyLt => "?<"@,
        SignOp::AnyLte => "?<="@,
        SignOp::AnyGt => "?>"@,
        SignOp::AnyGte => "?>="@,
    }
}

/// The sign operator whose canonical text is `s`, if any (never `Unset`).
pub open spec fn sign_from_text(s: Seq<char>) -> Option<SignOp> {
    if s == "="@ {
        Some(SignOp::Eq)
    } else if s == "!="@ {
        Some(SignOp::Neq)
    } else if s == "~"@ {
        Some(SignOp::Like)
    } else if s == "!~"@ {
        Some(SignOp::Nlike)
    } else if s == "<"@ {
        Some(SignOp::Lt)
    } else if s == "<="@ {
        Some(SignOp::Lte)
    } else if s == ">"@ {
        Some(SignOp::Gt)
    } else if s == ">="@ {
        Some(SignOp::Gte)
    } else if s == "?="@ {
        Some(SignOp::AnyEq)
    } else if s == "?!="@ {
        Some(SignOp::AnyNeq)
    } else if s == "?~"@ {
        Some(SignOp::AnyLike)
    } else if s == "?!~"@ {
        Some(SignOp::AnyNlike)
    } else if s == "?<"@ {
        Some(SignOp::AnyLt)
    } else if s == "?<="@ {
        Some(SignOp::AnyLte)
    } else if s == "?>"@ {
        Some(SignOp::AnyGt)
    } else if s == "?>="@ {
        Some(SignOp::AnyGte)
    } else {
        None
    }
}

impl SignOp {
    /// Reads a sign operator from its canonical text.
    pub fn from_str(s: &str) -> (r: Option<SignOp>)
        ensures
            r == sign_from_text(s@),
    {
        if text_eq(s, "=") {
            Some(SignOp::Eq)
        } else if text_eq(s, "!=") {
            Some(SignOp::Neq)
        } else if text_eq(s, "~") {
            Some(SignOp::Like)
        } else if text_eq(s, "!~") {
            Some(SignOp::Nlike)
        } else if text_eq(s, "<") {
            Some(SignOp::Lt)
        } else if text_eq(s, "<=") {
            Some(SignOp::Lte)
        } else if text_eq(s, ">") {
            Some(SignOp::Gt)
        } else if text_eq(s, ">=") {
            Some(SignOp::Gte)
        } else if text_eq(s, "?=") {
            Some(SignOp::AnyEq)
        } else if text_eq(s, "?!=") {
            Some(SignOp::AnyNeq)
        } else if text_eq(s, "?~") {
            Some(SignOp::AnyLike)
        } else if text_eq(s, "?!~") {
            Some(SignOp::AnyNlike)
        } else if text_eq(s, "?<") {
            Some(SignOp::AnyLt)
        } else if text_eq(s, "?<=") {
            Some(SignOp::AnyLte)
        } else if text_eq(s, "?>") {
            Some(SignOp::AnyGt)
        } else if text_eq(s, "?>=") {
            Some(SignOp::AnyGte)
        } else {
            None
        }
    }

    /// The canonical text of the operator.
    pub fn as_str(&self) -> (r: &'static str)
        ensures
            r@ == sign_text(*self),
    {
        match self {
            SignOp::Unset => "",
            SignOp::Eq => "=",
            SignOp::Neq => "!=",
            SignOp::Like => "~",
            SignOp::Nlike => "!~",
            SignOp::Lt => "<",
            SignOp::Lte => "<=",
            SignOp::Gt => ">",
            SignOp::Gte => ">=",
            SignOp::AnyEq => "?=",
            SignOp::AnyNeq => "?!=",
            SignOp::AnyLike => "?~",
            SignOp::AnyNlike => "?!~",
            SignOp::AnyLt => "?<",
            SignOp::AnyLte => "?<=",
            SignOp::AnyGt => "?>",
            SignOp::AnyGte => "?>=",
        }
    }

    /// The printed form of the operator: its canonical text.
    pub fn to_string(&self) -> (r: String)
        ensures
            r@ == sign_text(*self),
    {
        String::from_str(self.as_str())
    }
}

/// Reading the canonical text of any join operator gives the operator back.
pub proof fn lemma_join_text_inverse(op: JoinOp)
    ensures
        join_from_text(join_text(op)) == Some(op),
{
    reveal_strlit("&&");
    reveal_strlit("||");
    assert("&&"@[0] != "||"@[0]);
}

/// Reading the canonical text of any sign operator but `Unset` gives the
/// operator back.
pub proof fn lemma_sign_text_inverse(op: SignOp)
    requires
        op != SignOp::Unset,
    ensures
        sign_from_text(sign_text(op)) == Some(op),
{
    reveal_strlit("=");
    assert("="@.len() == 1);
    reveal_strlit("!=");
    assert("!="@.len() == 2);
    reveal_strlit("~");
    assert("~"@.len() == 1);
    reveal_strlit("!~");
    assert("!~"@.len() == 2);
    reveal_strlit("<");
    assert("<"@.len() == 1);
    reveal_strlit("<=");
    assert("<="@.len() == 2);
    reveal_strlit(">");
    assert(">"@.len() == 1);
    reveal_strlit(">=");
    assert(">="@.len() == 2);
    reveal_strlit("?=");
    assert("?="@.len() == 2);
    reveal_strlit("?!=");
    assert("?!="@.len() == 3);
    reveal_strlit("?~");
    assert("?~"@.len() == 2);
    reveal_strlit("?!~");
    assert("?!~"@.len() == 3);
    reveal_strlit("?<");
    assert("?<"@.len() == 2);
    reveal_strlit("?<=");
    assert("?<="@.len() == 3);
    reveal_strlit("?>");
    assert("?>"@.len() == 2);
    reveal_strlit("?>=");
    assert("?>="@.len() == 3);
    assert("="@[0] != "~"@[0]);
    assert("="@[0] != "<"@[0]);
    assert("="@[0] != ">"@[0]);
    assert("!="@[1] != "!~"@[1]);
    assert("!="@[0] != "<="@[0]);
    assert("!="@[0] != ">="@[0]);
    assert("!="@[0] != "?="@[0]);
    assert("!="@[0] != "?~"@[0]);
    assert("!="@[0] != "?<"@[0]);
    assert("!="@[0] != "?>"@[0]);
    assert("~"@[0] != "<"@[0]);
    assert("~"@[0] != ">"@[0]);
    assert("!~"@[0] != "<="@[0]);
    assert("!~"@[0] != ">="@[0]);
    assert("!~"@[0] != "?="@[0]);
    assert("!~"@[0] != "?~"@[0]);
    assert("!~"@[0] != "?<"@[0]);
    assert("!~"@[0] != "?>"@[0]);
    assert("<"@[0] != ">"@[0]);
    assert("<="@[0] != ">="@[0]);
    assert("<="@[0] != "?="@[0]);
    assert("<="@[0] != "?~"@[0]);
    assert("<="@[0] != "?<"@[0]);
    assert("<="@[0] != "?>"@[0]);
    assert(">="@[0] != "?="@[0]);
    assert(">="@[0] != "?~"@[0]);
    assert(">="@[0] != "?<"@[0]);
    assert(">="@[0] != "?>"@[0]);
    assert("?="@[1] != "?~"@[1]);
    assert("?="@[1] != "?<"@[1]);
    assert("?="@[1] != "?>"@[1]);
    assert("?!="@[2] != "?!~"@[2]);
    assert("?!="@[1] != "?<="@[1]);
    assert("?!="@[1] != "?>="@[1]);
    assert("?~"@[1] != "?<"@[1]);
    assert("?~"@[1] != "?>"@[1]);
    assert("?!~"@[1] != "?<="@[1]);
    assert("?!~"@[1] != "?>="@[1]);
    assert("?<"@[1] != "?>"@[1]);
    assert("?<="@[1] != "?>="@[1]);
}

} // verus!
