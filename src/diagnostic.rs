use vstd::prelude::*;
use vstd::string::StrSliceExecFns;

verus! {

/// Which shader of a program a compiler diagnostic is about.
#[derive(Clone, Copy, Debug, PartialEq, Eq, Structural)]
pub enum ShaderKind {
    Vertex,
    Fragment,
}

/// A compiler error located in the shader source: the line and column it reports, the text
/// of that line and the first line of the message.
pub struct ShaderDiagnostic {
    pub line: usize,
    pub column: usize,
    pub code: String,
    pub message: String,
}

/// Index of the first `c` of `s` at or after `from`, or the length of `s` when there is none.
pub open spec fn find_from(s: Seq<char>, c: char, from: int) -> int
    decreases s.len() - from,
{
    if from >= s.len() {
        s.len() as int
    } else if s[from] == c {
        from
    } else {
        find_from(s, c, from + 1)
    }
}

/// `s` with every `c` left out.
pub open spec fn without(s: Seq<char>, c: char) -> Seq<char>
    decreases s.len(),
{
    if s.len() == 0 {
        s
    } else if s.last() == c {
        without(s.drop_last(), c)
    } else {
        without(s.drop_last(), c).push(s.last())
    }
}

/// `s` without one trailing carriage return.
pub open spec fn strip_cr(s: Seq<char>) -> Seq<char> {
    if s.len() > 0 && s.last() == '\r' {
        s.drop_last()
    } else {
        s
    }
}

/// The first line of `s`, without its line ending.
pub open spec fn first_line(s: Seq<char>) -> Seq<char> {
    strip_cr(s.subrange(0, find_from(s, '\n', 0)))
}

/// Index at which line `k` of `text` starts, counting from 0.
pub open spec fn line_start(text: Seq<char>, k: nat) -> int
    decreases k,
{
    if k == 0 {
        0
    } else {
        find_from(text, '\n', line_start(text, (k - 1) as nat)) + 1
    }
}

/// Line `k` of `text`, without its line ending; `None` past the last line.
pub open spec fn line_of(text: Seq<char>, k: nat) -> Option<Seq<char>> {
    let start = line_start(text, k);
    if start < text.len() {
        Some(strip_cr(text.subrange(start, find_from(text, '\n', start))))
    } else {
        None
    }
}

pub open spec fn is_digit(c: char) -> bool {
    '0' <= c && c <= '9'
}

/// The number written in decimal digits by `s`.
pub open spec fn decimal_value(s: Seq<char>) -> nat
    decreases s.len(),
{
    if s.len() == 0 {
        0
    } else {
        decimal_value(s.drop_last()) * 10 + (s.last() as nat - '0' as nat) as nat
    }
}

/// `s` is a nonempty run of decimal digits whose value fits in a `usize`.
pub open spec fn is_number(s: Seq<char>) -> bool {
    &&& s.len() > 0
    &&& forall|i: int| 0 <= i < s.len() ==> is_digit(#[trigger] s[i])
    &&& decimal_value(s) <= usize::MAX
}

/// What a diagnostic of the form `<file>:<line>(<column>): <message>` says about `text`:
/// the line and column numbers, the text of that line (counting from 1) and the first line of
/// everything after the second colon, colons left out. `None` when the message does not
/// have that form or `text` has no such line.
pub open spec fn spec_diagnostic(message: Seq<char>, text: Seq<char>) -> Option<
    (nat, nat, Seq<char>, Seq<char>),
> {
    let first_colon = find_from(message, ':', 0);
    let second_colon = find_from(message, ':', first_colon + 1);
    let position = message.subrange(first_colon + 1, second_colon);
    let first_paren = find_from(position, '(', 0);
    let second_paren = find_from(position, '(', first_paren + 1);
    let line_text = position.subrange(0, first_paren);
    let column_field = position.subrange(first_paren + 1, second_paren);
    let rest = if second_colon < message.len() {
        message.subrange(second_colon + 1, message.len() as int)
    } else {
        Seq::empty()
    };
    if first_colon < message.len() && first_paren < position.len() && column_field.len() > 0 && is_number(line_text)
        && is_number(column_field.drop_last()) && decimal_value(line_text) >= 1 && line_of(
        text,
        (decimal_value(line_text) - 1) as nat,
    ) is Some {
        Some(
            (
                decimal_value(line_text),
                decimal_value(column_field.drop_last()),
                line_of(text, (decimal_value(line_text) - 1) as nat).unwrap(),
                first_line(without(rest, ':')),
            ),
        )
    } else {
        None
    }
}

/// Relies on String::push: appends one character.
#[verifier::external_body]
fn push_char(s: &mut String, c: char)
    ensures
        final(s)@ == old(s)@.push(c),
{
    s.push(c)
}

/// The characters of `s`.
pub fn chars_of(s: &str) -> (r: Vec<char>)
    ensures
        r@ == s@,
{
    let n = s.unicode_len();
    let mut r: Vec<char> = Vec::new();
    let mut i: usize = 0;
    while i < n
        invariant
            n == s@.len(),
            i <= n,
            r@ == s@.subrange(0, i as int),
        decreases n - i,
    {
        r.push(s.get_char(i));
        i = i + 1;
        assert(r@ =~= s@.subrange(0, i as int));
    }
    assert(r@ =~= s@);
    r
}

/// The string made of the characters of `v`.
pub fn string_of(v: &Vec<char>) -> (r: String)
    ensures
        r@ == v@,
{
    let mut r = String::new();
    let mut i: usize = 0;
    while i < v.len()
        invariant
            i <= v@.len(),
            r@ == v@.subrange(0, i as int),
        decreases v@.len() - i,
    {
        push_char(&mut r, v[i]);
        i = i + 1;
        assert(r@ =~= v@.subrange(0, i as int));
    }
    assert(r@ =~= v@);
    r
}

/// Index of the first `c` of `s` at or after `from`, or the length of `s`.
pub fn find_char(s: &Vec<char>, c: char, from: usize) -> (r: usize)
    ensures
        r as int == find_from(s@, c, from as int),
{
    if from >= s.len() {
        return s.len();
    }
    let mut i: usize = from;
    while i < s.len()
        invariant
            from <= i <= s@.len(),
            find_from(s@, c, from as int) == find_from(s@, c, i as int),
        decreases s@.len() - i,
    {
        if s[i] == c {
            return i;
        }
        i = i + 1;
    }
    i
}

/// The characters of `s` from `from` up to `to`.
pub fn slice_of(s: &Vec<char>, from: usize, to: usize) -> (r: Vec<char>)
    requires
        from <= to <= s@.len(),
    ensures
        r@ == s@.subrange(from as int, to as int),
{
    let mut r: Vec<char> = Vec::new();
    let mut i: usize = from;
    while i < to
        invariant
            from <= i <= to <= s@.len(),
            r@ == s@.subrange(from as int, i as int),
        decreases to - i,
    {
        r.push(s[i]);
        i = i + 1;
        assert(r@ =~= s@.subrange(from as int, i as int));
    }
    r
}

/// Reads a run of decimal digits; `None` when `s` is empty, holds another character, or
/// names a number too large for a `usize`.
pub fn parse_number(s: &Vec<char>) -> (r: Option<usize>)
    ensures
        match r {
            Some(v) => is_number(s@) && v as nat == decimal_value(s@),
            None => !is_number(s@),
        },
{
    if s.len() == 0 {
        return None;
    }
    let mut value: usize = 0;
    let mut i: usize = 0;
    while i < s.len()
        invariant
            i <= s@.len(),
            s@.len() > 0,
            value as nat == decimal_value(s@.subrange(0, i as int)),
            forall|j: int| 0 <= j < i ==> is_digit(#[trigger] s@[j]),
        decreases s@.len() - i,
    {
        let c = s[i];
        proof {
            assert(s@.subrange(0, i as int + 1).drop_last() =~= s@.subrange(0, i as int));
        }
        if !('0' <= c && c <= '9') {
            return None;
        }
        let digit = (c as u32 - '0' as u32) as usize;
        if value > (usize::MAX - digit) / 10 {
            proof {
                let v = value as int;
                let d = digit as int;
                assert(v * 10 + d > usize::MAX) by (nonlinear_arith)
                    requires
                        v > (usize::MAX - d) / 10,
                        0 <= d <= 9,
                ;
                assert(decimal_value(s@.subrange(0, i as int + 1)) == v * 10 + d);
                if forall|j: int| 0 <= j < s@.len() ==> is_digit(#[trigger] s@[j]) {
                    lemma_prefix_value_grows(s@, i as int + 1);
                }
            }
            return None;
        }
        value = value * 10 + digit;
        i = i + 1;
    }
    assert(s@.subrange(0, s@.len() as int) =~= s@);
    Some(value)
}

/// The value of a run of digits is at least the value of each of its prefixes.
proof fn lemma_prefix_value_grows(s: Seq<char>, k: int)
    requires
        0 <= k <= s.len(),
        forall|j: int| 0 <= j < s.len() ==> is_digit(#[trigger] s[j]),
    ensures
        decimal_value(s) >= decimal_value(s.subrange(0, k)),
    decreases s.len() - k,
{
    if k < s.len() {
        lemma_prefix_value_grows(s, k + 1);
        assert(s.subrange(0, k + 1).drop_last() =~= s.subrange(0, k));
    } else {
        assert(s.subrange(0, k) =~= s);
    }
}

/// `find_from` never goes back, and never past the end.
pub proof fn lemma_find_bounds(s: Seq<char>, c: char, from: int)
    requires
        0 <= from,
    ensures
        from <= s.len() ==> from <= find_from(s, c, from) <= s.len(),
        from > s.len() ==> find_from(s, c, from) == s.len(),
    decreases s.len() - from,
{
    if from < s.len() && s[from] != c {
        lemma_find_bounds(s, c, from + 1);
    }
}

/// Once a line would start at or past the end of the text, so do all later ones.
proof fn lemma_lines_end(text: Seq<char>, j: nat, k: nat)
    requires
        j <= k,
        line_start(text, j) >= text.len(),
    ensures
        line_start(text, k) >= text.len(),
    decreases k - j,
{
    if j < k {
        lemma_find_bounds(text, '\n', line_start(text, j));
        lemma_lines_end(text, j + 1, k);
    }
}

/// `s` with every `c` left out.
pub fn without_char(s: &Vec<char>, c: char) -> (r: Vec<char>)
    ensures
        r@ == without(s@, c),
{
    let mut r: Vec<char> = Vec::new();
    let mut i: usize = 0;
    while i < s.len()
        invariant
            i <= s@.len(),
            r@ == without(s@.subrange(0, i as int), c),
        decreases s@.len() - i,
    {
        assert(s@.subrange(0, i as int + 1).drop_last() =~= s@.subrange(0, i as int));
        if s[i] != c {
            r.push(s[i]);
        }
        i = i + 1;
    }
    assert(s@.subrange(0, s@.len() as int) =~= s@);
    r
}

/// The first line of `s`, without its line ending.
pub fn first_line_of(s: &Vec<char>) -> (r: Vec<char>)
    ensures
        r@ == first_line(s@),
{
    let end = find_char(s, '\n', 0);
    proof {
        lemma_find_bounds(s@, '\n', 0);
    }
    let mut line = slice_of(s, 0, end);
    if line.len() > 0 && line[line.len() - 1] == '\r' {
        line.pop();
        assert(line@ =~= s@.subrange(0, end as int).drop_last());
    }
    line
}

/// Line `k` of `text`, counting from 0, without its line ending.
pub fn line_at(text: &Vec<char>, k: usize) -> (r: Option<Vec<char>>)
    ensures
        match line_of(text@, k as nat) {
            Some(l) => r matches Some(v) && v@ == l,
            None => r is None,
        },
{
    let mut start: usize = 0;
    let mut j: usize = 0;
    while j < k
        invariant
            j <= k,
            start as int == line_start(text@, j as nat),
        decreases k - j,
    {
        if start >= text.len() {
            proof {
                lemma_lines_end(text@, j as nat, k as nat);
            }
            return None;
        }
        let end = find_char(text, '\n', start);
        proof {
            lemma_find_bounds(text@, '\n', start as int);
        }
        if end >= text.len() {
            proof {
                assert(line_start(text@, (j + 1) as nat) == text@.len() + 1);
                lemma_lines_end(text@, (j + 1) as nat, k as nat);
            }
            return None;
        }
        start = end + 1;
        j = j + 1;
    }
    if start >= text.len() {
        return None;
    }
    let end = find_char(text, '\n', start);
    proof {
        lemma_find_bounds(text@, '\n', start as int);
    }
    let mut line = slice_of(text, start, end);
    if line.len() > 0 && line[line.len() - 1] == '\r' {
        line.pop();
        assert(line@ =~= text@.subrange(start as int, end as int).drop_last());
    }
    Some(line)
}

/// Reads a compiler diagnostic of the form `<file>:<line>(<column>): <message>` against the
/// source of the shader it is about, as `spec_diagnostic` says. `None` when the diagnostic
/// has another form or names a line the source does not have.
pub fn parse_error_message(
    message: &str,
    shader: ShaderKind,
    vertex_text: &str,
    fragment_text: &str,
) -> (r: Option<ShaderDiagnostic>)
    ensures
        ({
            let text = match shader {
                ShaderKind::Vertex => vertex_text@,
                ShaderKind::Fragment => fragment_text@,
            };
            match spec_diagnostic(message@, text) {
                Some(d) => r matches Some(x) && x.line == d.0 && x.column == d.1 && x.code@ == d.2
                    && x.message@ == d.3,
                None => r is None,
            }
        }),
{
    let m = chars_of(message);
    let text = match shader {
        ShaderKind::Vertex => chars_of(vertex_text),
        ShaderKind::Fragment => chars_of(fragment_text),
    };
    let first_colon = find_char(&m, ':', 0);
    if first_colon >= m.len() {
        return None;
    }
    let second_colon = find_char(&m, ':', first_colon + 1);
    proof {
        lemma_find_bounds(m@, ':', first_colon + 1);
    }
    let position = slice_of(&m, first_colon + 1, second_colon);
    let first_paren = find_char(&position, '(', 0);
    if first_paren >= position.len() {
        return None;
    }
    let second_paren = find_char(&position, '(', first_paren + 1);
    proof {
        lemma_find_bounds(position@, '(', first_paren + 1);
    }
    let line_text = slice_of(&position, 0, first_paren);
    let column_field = slice_of(&position, first_paren + 1, second_paren);
    if column_field.len() == 0 {
        return None;
    }
    let column_text = slice_of(&column_field, 0, column_field.len() - 1);
    assert(column_text@ =~= column_field@.drop_last());
    let line = match parse_number(&line_text) {
        Some(v) => v,
        None => {
            return None;
        },
    };
    let column = match parse_number(&column_text) {
        Some(v) => v,
        None => {
            return None;
        },
    };
    if line < 1 {
        return None;
    }
    let code = match line_at(&text, line - 1) {
        Some(c) => c,
        None => {
            return None;
        },
    };
    let rest = if second_colon < m.len() {
        slice_of(&m, second_colon + 1, m.len())
    } else {
        Vec::new()
    };
    assert(rest@ =~= (if second_colon < m@.len() {
        m@.subrange(second_colon + 1, m@.len() as int)
    } else {
        Seq::empty()
    }));
    let text_of_message = first_line_of(&without_char(&rest, ':'));
    Some(
        ShaderDiagnostic {
            line,
            column,
            code: string_of(&code),
            message: string_of(&text_of_message),
        },
    )
}

/// `n` spaces.
pub open spec fn spaces(n: nat) -> Seq<char> {
    Seq::new(n, |i: int| ' ')
}

impl ShaderDiagnostic {
    /// The report shown for the diagnostic: the offending line, a caret under the column, and
    /// the message, each on a line of its own.
    pub fn render(&self) -> (r: String)
        ensures
            r@ == self.code@ + seq!['\n'] + spaces(self.column as nat) + seq!['^', '\n']
                + self.message@ + seq!['\n'],
    {
        let mut out = chars_of(self.code.as_str());
        out.push('\n');
        let ghost head = out@;
        let mut i: usize = 0;
        while i < self.column
            invariant
                i <= self.column,
                out@ == head + spaces(i as nat),
            decreases self.column - i,
        {
            out.push(' ');
            i = i + 1;
            assert(out@ =~= head + spaces(i as nat));
        }
        out.push('^');
        out.push('\n');
        let mut message = chars_of(self.message.as_str());
        out.append(&mut message);
        out.push('\n');
        assert(out@ =~= self.code@ + seq!['\n'] + spaces(self.column as nat) + seq!['^', '\n']
            + self.message@ + seq!['\n']);
        string_of(&out)
    }
}

} // verus!
