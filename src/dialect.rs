//! The supported shell dialects and how each one writes an alias.
use vstd::prelude::*;
use vstd::string::StringExecFns;
use crate::store::{is_name_char, valid_name_chars};
use crate::text::{
    chars_of, contains, has_char, lemma_occurs_char, lemma_occurs_in_prefix, lemma_occurs_in_suffix,
    lower_of, lowercase, occurs_at, push_char, str_equals,
};

verus! {

broadcast use vstd::string::group_string_axioms;

/// The shells whose startup files can be managed.
#[derive(Debug, Clone, Copy, PartialEq, Eq, Structural)]
pub enum ShellType {
    Bash,
    Zsh,
    PowerShell,
}

/// What a single quote inside a single-quoted word becomes: close the
/// quote, an escaped quote, reopen the quote.
pub open spec fn quote_escape() -> Seq<char> {
    "'\\''"@
}

/// `s` with every single quote replaced by `quote_escape()`.
pub open spec fn escape_single_quotes(s: Seq<char>) -> Seq<char>
    decreases s.len(),
{
    if s.len() == 0 {
        Seq::empty()
    } else {
        escape_single_quotes(s.drop_last()) + if s.last() == '\'' {
            quote_escape()
        } else {
            seq![s.last()]
        }
    }
}

/// The POSIX alias line for `name` and `command`.
pub open spec fn posix_alias_line(name: Seq<char>, command: Seq<char>) -> Seq<char> {
    "alias "@ + name + "='"@ + escape_single_quotes(command) + "'"@
}

/// A PowerShell command that needs a function wrapper rather than an alias.
pub open spec fn is_compound(command: Seq<char>) -> bool {
    command.contains(' ') || command.contains('|') || command.contains(';')
}

/// The PowerShell line for `name` and `command`.
pub open spec fn powershell_alias_line(name: Seq<char>, command: Seq<char>) -> Seq<char> {
    if is_compound(command) {
        "function "@ + name + " { "@ + command + " }"@
    } else {
        "Set-Alias -Name "@ + name + " -Value "@ + command
    }
}

/// The line that defines one alias in dialect `d`.
pub open spec fn alias_line(d: ShellType, name: Seq<char>, command: Seq<char>) -> Seq<char> {
    match d {
        ShellType::PowerShell => powershell_alias_line(name, command),
        _ => posix_alias_line(name, command),
    }
}

/// The comment prefix of dialect `d`.
pub open spec fn comment_prefix_of(d: ShellType) -> Seq<char> {
    "#"@
}

/// The line that opens the managed block.
pub open spec fn begin_marker_of(d: ShellType) -> Seq<char> {
    comment_prefix_of(d) + " BEGIN akash aliases"@
}

/// The line that closes the managed block.
pub open spec fn end_marker_of(d: ShellType) -> Seq<char> {
    comment_prefix_of(d) + " END akash aliases"@
}

/// The alias lines of `entries`, each followed by a newline.
pub open spec fn block_body(d: ShellType, entries: Seq<(String, String)>) -> Seq<char>
    decreases entries.len(),
{
    if entries.len() == 0 {
        Seq::empty()
    } else {
        block_body(d, entries.drop_last()) + alias_line(d, entries.last().0@, entries.last().1@)
            + seq!['\n']
    }
}

/// The managed block for `entries`: begin marker, one line per entry in
/// order, end marker, joined by newlines with no trailing newline.
pub open spec fn render_block(d: ShellType, entries: Seq<(String, String)>) -> Seq<char> {
    begin_marker_of(d) + seq!['\n'] + block_body(d, entries) + end_marker_of(d)
}

/// Appends `command` with its single quotes escaped.
fn push_escaped(out: &mut String, command: &str)
    ensures
        final(out)@ == old(out)@ + escape_single_quotes(command@),
{
    let c = chars_of(command);
    let mut i: usize = 0;
    while i < c.len()
        invariant
            i <= c.len(),
            c@ == command@,
            out@ == old(out)@ + escape_single_quotes(c@.subrange(0, i as int)),
        decreases c.len() - i,
    {
        assert(c@.subrange(0, i + 1).drop_last() =~= c@.subrange(0, i as int));
        if c[i] == '\'' {
            out.append("'\\''");
        } else {
            push_char(out, c[i]);
        }
        i += 1;
    }
    assert(c@.subrange(0, c.len() as int) =~= c@);
}

/// The POSIX alias line, with single quotes in the command escaped.
pub fn posix_alias_syntax(name: &str, command: &str) -> (r: String)
    ensures
        r@ == posix_alias_line(name@, command@),
{
    let mut out = String::from_str("alias ");
    out.append(name);
    out.append("='");
    push_escaped(&mut out, command);
    out.append("'");
    out
}

/// The PowerShell line: a function wrapper for compound commands, a plain
/// alias otherwise.
pub fn powershell_alias_syntax(name: &str, command: &str) -> (r: String)
    ensures
        r@ == powershell_alias_line(name@, command@),
{
    let c = chars_of(command);
    if has_char(&c, ' ') || has_char(&c, '|') || has_char(&c, ';') {
        let mut out = String::from_str("function ");
        out.append(name);
        out.append(" { ");
        out.append(command);
        out.append(" }");
        out
    } else {
        let mut out = String::from_str("Set-Alias -Name ");
        out.append(name);
        out.append(" -Value ");
        out.append(command);
        out
    }
}

impl ShellType {
    /// The line that defines alias `name` as `command` in this dialect.
    pub fn alias_syntax(&self, name: &str, command: &str) -> (r: String)
        ensures
            r@ == alias_line(*self, name@, command@),
    {
        match self {
            ShellType::PowerShell => powershell_alias_syntax(name, command),
            _ => posix_alias_syntax(name, command),
        }
    }

    /// The comment prefix used to build the markers.
    pub fn comment_prefix(&self) -> (r: &'static str)
        ensures
            r@ == comment_prefix_of(*self),
    {
        "#"
    }

    /// The line that opens the managed block.
    pub fn begin_marker(&self) -> (r: String)
        ensures
            r@ == begin_marker_of(*self),
    {
        let mut out = String::from_str(self.comment_prefix());
        out.append(" BEGIN akash aliases");
        out
    }

    /// The line that closes the managed block.
    pub fn end_marker(&self) -> (r: String)
        ensures
            r@ == end_marker_of(*self),
    {
        let mut out = String::from_str(self.comment_prefix());
        out.append(" END akash aliases");
        out
    }

    /// The managed block for `aliases`, one line per entry in order.
    pub fn generate_alias_block(&self, aliases: &Vec<(String, String)>) -> (r: String)
        ensures
            r@ == render_block(*self, aliases@),
    {
        let mut out = self.begin_marker();
        push_char(&mut out, '\n');
        let mut i: usize = 0;
        while i < aliases.len()
            invariant
                i <= aliases.len(),
                out@ == begin_marker_of(*self) + seq!['\n'] + block_body(
                    *self,
                    aliases@.subrange(0, i as int),
                ),
            decreases aliases.len() - i,
        {
            assert(aliases@.subrange(0, i + 1).drop_last() =~= aliases@.subrange(0, i as int));
            let line = self.alias_syntax(aliases[i].0.as_str(), aliases[i].1.as_str());
            out.append(line.as_str());
            push_char(&mut out, '\n');
            i += 1;
        }
        assert(aliases@.subrange(0, aliases.len() as int) =~= aliases@);
        let end = self.end_marker();
        out.append(end.as_str());
        out
    }
}

} // verus!

verus! {

/// Relies on `dirs::home_dir`: the current user's home directory, when the
/// system can tell it; the path is turned into text, lossily.
#[verifier::external_body]
fn home_dir() -> (r: Option<String>) {
    dirs::home_dir().map(|p| p.to_string_lossy().into_owned())
}

/// Why a dialect could not be resolved or could not answer.
#[derive(Debug, Clone, PartialEq, Eq)]
pub enum ShellError {
    /// The home directory is unknown, so no startup file can be named.
    HomeDirNotFound,
    /// The given name is none of the supported shells.
    UnsupportedShell(String),
}

/// The short display name of dialect `d`.
pub open spec fn name_of(d: ShellType) -> Seq<char> {
    match d {
        ShellType::Bash => "Bash"@,
        ShellType::Zsh => "Zsh"@,
        ShellType::PowerShell => "PowerShell"@,
    }
}

/// The long display label of dialect `d`.
pub open spec fn label_of(d: ShellType) -> Seq<char> {
    match d {
        ShellType::Bash => "Bash Shell"@,
        ShellType::Zsh => "Zsh Shell"@,
        ShellType::PowerShell => "PowerShell Shell"@,
    }
}

/// How to make a running shell of dialect `d` pick up new aliases.
pub open spec fn reload_of(d: ShellType) -> Seq<char> {
    match d {
        ShellType::Bash => "Restart your terminal or run: source ~/.bashrc or exec bash"@,
        ShellType::Zsh => "Restart your terminal or run: source ~/.zshrc"@,
        ShellType::PowerShell => "Restart PowerShell or run: . $PROFILE"@,
    }
}

/// The startup file of dialect `d`, relative to the home directory.
pub open spec fn config_relative_of(d: ShellType) -> Seq<char> {
    match d {
        ShellType::Bash => ".bashrc"@,
        ShellType::Zsh => ".zshrc"@,
        ShellType::PowerShell => "Documents/PowerShell/Microsoft.PowerShell_profile.ps1"@,
    }
}

/// `rel` placed under the directory `dir`.
pub open spec fn path_join(dir: Seq<char>, rel: Seq<char>) -> Seq<char> {
    if dir.len() == 0 {
        rel
    } else if dir.last() == '/' {
        dir + rel
    } else {
        dir + seq!['/'] + rel
    }
}

/// The dialect a lower-case shell name stands for.
pub open spec fn shell_named(lower: Seq<char>) -> Option<ShellType> {
    if lower == "bash"@ || lower == "git-bash"@ {
        Some(ShellType::Bash)
    } else if lower == "zsh"@ {
        Some(ShellType::Zsh)
    } else if lower == "powershell"@ || lower == "pwsh"@ {
        Some(ShellType::PowerShell)
    } else {
        None
    }
}

impl std::str::FromStr for ShellType {
    type Err = ShellError;

    /// The dialect named by `input`, in any letter case.
    fn from_str(input: &str) -> Result<ShellType, ShellError> {
        ShellType::from_name(input)
    }
}

/// The dialect named by `lower`, a name already in lower case.
pub fn shell_from_lowercase(lower: &str) -> (r: Option<ShellType>)
    ensures
        r == shell_named(lower@),
{
    if str_equals(lower, "bash") || str_equals(lower, "git-bash") {
        Some(ShellType::Bash)
    } else if str_equals(lower, "zsh") {
        Some(ShellType::Zsh)
    } else if str_equals(lower, "powershell") || str_equals(lower, "pwsh") {
        Some(ShellType::PowerShell)
    } else {
        None
    }
}

impl ShellType {
    /// The dialect named by `input`, in any letter case.
    pub fn from_name(input: &str) -> (r: Result<ShellType, ShellError>)
        ensures
            match shell_named(lower_of(input@)) {
                Some(d) => r == Ok::<ShellType, ShellError>(d),
                None => r matches Err(ShellError::UnsupportedShell(s)) && s@ == input@,
            },
    {
        let lower = lowercase(input);
        match shell_from_lowercase(lower.as_str()) {
            Some(d) => Ok(d),
            None => Err(ShellError::UnsupportedShell(String::from_str(input))),
        }
    }

    /// The short display name.
    pub fn name(&self) -> (r: &'static str)
        ensures
            r@ == name_of(*self),
    {
        match self {
            ShellType::Bash => "Bash",
            ShellType::Zsh => "Zsh",
            ShellType::PowerShell => "PowerShell",
        }
    }

    /// The long display label.
    pub fn label(&self) -> (r: &'static str)
        ensures
            r@ == label_of(*self),
    {
        match self {
            ShellType::Bash => "Bash Shell",
            ShellType::Zsh => "Zsh Shell",
            ShellType::PowerShell => "PowerShell Shell",
        }
    }

    /// How to make a running shell pick up new aliases.
    pub fn reload_instructions(&self) -> (r: String)
        ensures
            r@ == reload_of(*self),
    {
        match self {
            ShellType::Bash => String::from_str(
                "Restart your terminal or run: source ~/.bashrc or exec bash",
            ),
            ShellType::Zsh => String::from_str("Restart your terminal or run: source ~/.zshrc"),
            ShellType::PowerShell => String::from_str("Restart PowerShell or run: . $PROFILE"),
        }
    }

    /// The startup file under the current user's home directory; an unknown
    /// home directory is an error, never a default.
    pub fn config_path(&self) -> (r: Result<String, ShellError>)
        ensures
            match r {
                Ok(p) => exists|h: Seq<char>| p@ == path_join(h, config_relative_of(*self)),
                Err(e) => e == ShellError::HomeDirNotFound,
            },
    {
        let home = home_dir();
        match home {
            Some(h) => self.config_path_in(Some(h.as_str())),
            None => self.config_path_in(None),
        }
    }

    /// The startup file under the home directory `home`; an unknown home
    /// directory is an error, never a default.
    pub fn config_path_in(&self, home: Option<&str>) -> (r: Result<String, ShellError>)
        ensures
            match home {
                None => r == Err::<String, ShellError>(ShellError::HomeDirNotFound),
                Some(h) => r matches Ok(p) && p@ == path_join(h@, config_relative_of(*self)),
            },
    {
        let h = match home {
            None => {
                return Err(ShellError::HomeDirNotFound);
            },
            Some(h) => h,
        };
        let rel = match self {
            ShellType::Bash => ".bashrc",
            ShellType::Zsh => ".zshrc",
            ShellType::PowerShell => "Documents/PowerShell/Microsoft.PowerShell_profile.ps1",
        };
        let hc = chars_of(h);
        let mut out = String::from_str(h);
        if hc.len() > 0 && hc[hc.len() - 1] != '/' {
            push_char(&mut out, '/');
        }
        out.append(rel);
        Ok(out)
    }
}

} // verus!

verus! {

/// What a POSIX shell reads from the word `s`: outside quotes a backslash
/// takes the next character literally and a single quote opens a quoted
/// run; inside, every character is literal until the closing quote.
pub open spec fn shell_unquote(s: Seq<char>, quoted: bool) -> Seq<char>
    decreases s.len(),
{
    if s.len() == 0 {
        Seq::empty()
    } else if quoted {
        if s[0] == '\'' {
            shell_unquote(s.drop_first(), false)
        } else {
            seq![s[0]] + shell_unquote(s.drop_first(), true)
        }
    } else if s[0] == '\'' {
        shell_unquote(s.drop_first(), true)
    } else if s[0] == '\\' && s.len() >= 2 {
        seq![s[1]] + shell_unquote(s.subrange(2, s.len() as int), false)
    } else {
        seq![s[0]] + shell_unquote(s.drop_first(), false)
    }
}

/// The single-quoted word that stands for `command` in a POSIX alias line.
pub open spec fn posix_word(command: Seq<char>) -> Seq<char> {
    "'"@ + escape_single_quotes(command) + "'"@
}

/// Inside a quoted run, an escaped command reads back as itself.
proof fn lemma_unquote_escaped(c: Seq<char>, rest: Seq<char>)
    ensures
        shell_unquote(escape_single_quotes(c) + rest, true) == c + shell_unquote(rest, true),
    decreases c.len(),
{
    if c.len() == 0 {
        assert(escape_single_quotes(c) + rest =~= rest);
        assert(c + shell_unquote(rest, true) =~= shell_unquote(rest, true));
    } else {
        let init = c.drop_last();
        let x = c.last();
        let piece = if x == '\'' { quote_escape() } else { seq![x] };
        assert(escape_single_quotes(c) + rest =~= escape_single_quotes(init) + (piece + rest));
        lemma_unquote_escaped(init, piece + rest);
        if x == '\'' {
            reveal_strlit("'\\''");
            assert(piece =~= seq!['\'', '\\', '\'', '\'']);
            let s0 = piece + rest;
            let s1 = s0.drop_first();
            let s2 = s1.subrange(2, s1.len() as int);
            assert(s1 =~= seq!['\\', '\'', '\''] + rest);
            assert(s2 =~= seq!['\''] + rest);
            assert(s2.drop_first() =~= rest);
            assert(s0[0] == '\'');
            assert(shell_unquote(s0, true) == shell_unquote(s1, false));
            assert(s1[0] == '\\' && s1[1] == '\'');
            assert(shell_unquote(s1, false) == seq!['\''] + shell_unquote(s2, false));
            assert(s2[0] == '\'');
            assert(shell_unquote(s2, false) == shell_unquote(rest, true));
        } else {
            assert((piece + rest).drop_first() =~= rest);
            assert((piece + rest)[0] == x);
        }
        assert(shell_unquote(piece + rest, true) == seq![x] + shell_unquote(rest, true));
        assert(init + (seq![x] + shell_unquote(rest, true)) =~= c + shell_unquote(rest, true));
    }
}

/// For every alias name and command, the POSIX alias line is the name
/// followed by `=` and a word that a POSIX shell reads back as exactly the
/// command, single quotes included.
pub proof fn lemma_posix_quoting_round_trip(name: Seq<char>, command: Seq<char>)
    ensures
        posix_alias_line(name, command) == "alias "@ + name + "="@ + posix_word(command),
        shell_unquote(posix_word(command), false) == command,
{
    reveal_strlit("='");
    reveal_strlit("=");
    reveal_strlit("'");
    assert(posix_alias_line(name, command) =~= "alias "@ + name + "="@ + posix_word(command));
    let w = posix_word(command);
    assert(w.drop_first() =~= escape_single_quotes(command) + "'"@);
    lemma_unquote_escaped(command, "'"@);
    assert(w[0] == '\'');
    assert(shell_unquote(w, false) == shell_unquote(w.drop_first(), true));
    assert(("'"@).drop_first() =~= Seq::<char>::empty());
    assert(shell_unquote("'"@, true) == shell_unquote(Seq::<char>::empty(), false));
    assert(command + Seq::<char>::empty() =~= command);
}

} // verus!

verus! {

/// A pattern free of quotes and backslashes that occurs in an escaped
/// command occurs in the command itself; one that ends the escaped text
/// ends the command.
proof fn lemma_escape_occurrence(c: Seq<char>, p: Seq<char>, q: int) -> (q2: int)
    requires
        !p.contains('\''),
        !p.contains('\\'),
        occurs_at(escape_single_quotes(c), p, q),
    ensures
        occurs_at(c, p, q2),
        q + p.len() == escape_single_quotes(c).len() ==> q2 + p.len() == c.len(),
    decreases c.len(),
{
    if p.len() == 0 {
        let q2: int = if q == escape_single_quotes(c).len() { c.len() as int } else { 0 };
        assert(c.subrange(q2, q2) =~= p);
        q2
    } else if c.len() == 0 {
        assert(escape_single_quotes(c).len() == 0);
        0
    } else {
        let init = c.drop_last();
        let x = c.last();
        let ei = escape_single_quotes(init);
        let piece = if x == '\'' { quote_escape() } else { seq![x] };
        let ec = escape_single_quotes(c);
        assert(ec == ei + piece);
        assert(piece.len() >= 1) by {
            reveal_strlit("'\\''");
        }
        if q + p.len() <= ei.len() {
            lemma_occurs_in_prefix(ei, piece, p, q);
            let q1 = lemma_escape_occurrence(init, p, q);
            assert(c.subrange(q1, q1 + p.len()) =~= init.subrange(q1, q1 + p.len()));
            q1
        } else if x == '\'' {
            reveal_strlit("'\\''");
            assert(piece =~= seq!['\'', '\\', '\'', '\'']);
            let t = if q >= ei.len() { q } else { ei.len() as int };
            lemma_occurs_char(ec, p, q, t);
            assert(ec[t] == piece[t - ei.len()]);
            assert(p[t - q] == '\'' || p[t - q] == '\\');
            0
        } else {
            let p1 = p.drop_last();
            assert(ec.subrange(q, q + p.len()).drop_last() =~= ei.subrange(q, q + p1.len()));
            assert forall|i: int| 0 <= i < p1.len() implies p1[i] == p[i] by {}
            assert(!p1.contains('\'') && !p1.contains('\\')) by {
                if p1.contains('\'') {
                    let i = choose|i: int| 0 <= i < p1.len() && p1[i] == '\'';
                    assert(p[i] == '\'');
                }
                if p1.contains('\\') {
                    let i = choose|i: int| 0 <= i < p1.len() && p1[i] == '\\';
                    assert(p[i] == '\\');
                }
            }
            let q1 = lemma_escape_occurrence(init, p1, q);
            lemma_occurs_char(ec, p, q, q + p.len() - 1);
            assert(c.subrange(q1, q1 + p.len()) =~= p);
            q1
        }
    }
}

/// An occurrence of a pattern whose first character `pre` lacks starts
/// after `pre`.
proof fn lemma_occurs_after(pre: Seq<char>, rest: Seq<char>, m: Seq<char>, q: int)
    requires
        m.len() > 0,
        !pre.contains(m[0]),
        occurs_at(pre + rest, m, q),
    ensures
        q >= pre.len(),
        occurs_at(rest, m, q - pre.len()),
{
    lemma_occurs_char(pre + rest, m, q, q);
    if q < pre.len() {
        assert(pre[q] == m[0]);
    }
    lemma_occurs_in_suffix(pre, rest, m, q);
}

/// A literal, a valid alias name and a literal, put together, hold no `#`.
proof fn lemma_no_hash(a: Seq<char>, name: Seq<char>, b: Seq<char>)
    requires
        !a.contains('#'),
        !b.contains('#'),
        valid_name_chars(name),
    ensures
        !(a + name + b).contains('#'),
{
    let s = a + name + b;
    assert forall|i: int| 0 <= i < s.len() implies s[i] != '#' by {
        if i < a.len() {
            assert(s[i] == a[i]);
        } else if i < a.len() + name.len() {
            assert(s[i] == name[i - a.len()]);
            assert(is_name_char(name[i - a.len()]));
        } else {
            assert(s[i] == b[i - a.len() - name.len()]);
        }
    }
}

/// For an alias name made of ASCII letters, digits, `_` and `-`, and a
/// command that does not hold `m`, the alias line of every dialect does not
/// hold `m`, for any pattern shaped like a marker: it starts with `#`, ends
/// with no space, and holds no quote, backslash or `}`.
pub proof fn lemma_alias_line_free_of(d: ShellType, name: Seq<char>, command: Seq<char>, m: Seq<char>)
    requires
        m.len() > 0,
        m[0] == '#',
        m.last() != ' ',
        !m.contains('\''),
        !m.contains('\\'),
        !m.contains('}'),
        valid_name_chars(name),
        !contains(command, m),
    ensures
        !contains(alias_line(d, name, command), m),
{
    reveal_strlit("alias ");
    reveal_strlit("='");
    reveal_strlit("'");
    reveal_strlit("function ");
    reveal_strlit(" { ");
    reveal_strlit(" }");
    reveal_strlit("Set-Alias -Name ");
    reveal_strlit(" -Value ");
    let line = alias_line(d, name, command);
    assert forall|q: int| !occurs_at(line, m, q) by {
        if occurs_at(line, m, q) {
            if d == ShellType::PowerShell && is_compound(command) {
                let pre = "function "@ + name + " { "@;
                let post = " }"@;
                assert(post =~= seq![' ', '}']);
                lemma_no_hash("function "@, name, " { "@);
                assert(line =~= pre + (command + post));
                lemma_occurs_after(pre, command + post, m, q);
                let q2 = q - pre.len();
                let x = command + post;
                if q2 + m.len() > command.len() + 1 {
                    lemma_occurs_char(x, m, q2, (command.len() + 1) as int);
                    assert(m[command.len() + 1 - q2] == '}');
                } else if q2 + m.len() == command.len() + 1 {
                    lemma_occurs_char(x, m, q2, command.len() as int);
                    assert(m[m.len() - 1] == ' ');
                } else {
                    lemma_occurs_in_prefix(command, post, m, q2);
                }
            } else if d == ShellType::PowerShell {
                let pre = "Set-Alias -Name "@ + name + " -Value "@;
                lemma_no_hash("Set-Alias -Name "@, name, " -Value "@);
                assert(line =~= pre + command);
                lemma_occurs_after(pre, command, m, q);
            } else {
                let pre = "alias "@ + name + "='"@;
                let post = "'"@;
                assert(post =~= seq!['\'']);
                let ec = escape_single_quotes(command);
                lemma_no_hash("alias "@, name, "='"@);
                assert(line =~= pre + (ec + post));
                lemma_occurs_after(pre, ec + post, m, q);
                let q2 = q - pre.len();
                if q2 + m.len() > ec.len() {
                    lemma_occurs_char(ec + post, m, q2, ec.len() as int);
                    assert(m[ec.len() - q2] == '\'');
                } else {
                    lemma_occurs_in_prefix(ec, post, m, q2);
                    lemma_escape_occurrence(command, m, q2);
                }
            }
        }
    }
}

/// Both markers start with `#`, end with no space, and hold no quote,
/// backslash or `}`.
pub proof fn lemma_marker_shape(d: ShellType)
    ensures
        begin_marker_of(d).len() > 0,
        begin_marker_of(d)[0] == '#',
        begin_marker_of(d).last() != ' ',
        !begin_marker_of(d).contains('\''),
        !begin_marker_of(d).contains('\\'),
        !begin_marker_of(d).contains('}'),
        end_marker_of(d).len() > 0,
        end_marker_of(d)[0] == '#',
        end_marker_of(d).last() != ' ',
        !end_marker_of(d).contains('\''),
        !end_marker_of(d).contains('\\'),
        !end_marker_of(d).contains('}'),
{
    reveal_strlit("#");
    reveal_strlit(" BEGIN akash aliases");
    reveal_strlit(" END akash aliases");
    assert(end_marker_of(d) =~= seq!['#', ' ', 'E', 'N', 'D', ' ', 'a', 'k', 'a', 's', 'h', ' ', 'a', 'l', 'i', 'a', 's', 'e', 's']);
    assert(begin_marker_of(d) =~= seq!['#', ' ', 'B', 'E', 'G', 'I', 'N', ' ', 'a', 'k', 'a', 's', 'h', ' ', 'a', 'l', 'i', 'a', 's', 'e', 's']);
}

/// For an alias name made of ASCII letters, digits, `_` and `-`, and a
/// command that holds neither marker, the alias line of every dialect holds
/// neither marker.
pub proof fn lemma_alias_line_has_no_marker(d: ShellType, name: Seq<char>, command: Seq<char>)
    requires
        valid_name_chars(name),
        !contains(command, begin_marker_of(d)),
        !contains(command, end_marker_of(d)),
    ensures
        !contains(alias_line(d, name, command), begin_marker_of(d)),
        !contains(alias_line(d, name, command), end_marker_of(d)),
{
    lemma_marker_shape(d);
    lemma_alias_line_free_of(d, name, command, begin_marker_of(d));
    lemma_alias_line_free_of(d, name, command, end_marker_of(d));
}

} // verus!
