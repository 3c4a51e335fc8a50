//! The credentials file: named sections of free-form lines, read from text,
//! changed section by section, and written back as text.
use vstd::prelude::*;
use crate::text::{chars_of, join, split_lines, text_lines, views};
use vstd::string::{StrSliceExecFns, StringExecFns};

verus! {

/// What a section holds: its name and its body lines, in order.
pub struct CredentialView {
    pub profile: Seq<char>,
    pub lines: Seq<Seq<char>>,
}

/// `i` is the position of the first `c` in `s`.
pub open spec fn is_first(s: Seq<char>, c: char, i: int) -> bool {
    &&& 0 <= i < s.len()
    &&& s[i] == c
    &&& forall|k: int| 0 <= k < i ==> s[k] != c
}

/// `j` is the position of the last `c` in `s`.
pub open spec fn is_last(s: Seq<char>, c: char, j: int) -> bool {
    &&& 0 <= j < s.len()
    &&& s[j] == c
    &&& forall|k: int| j < k < s.len() ==> s[k] != c
}

/// The first `[` and the last `]` of `line` enclose at least one character.
pub open spec fn header_at(line: Seq<char>, i: int, j: int) -> bool {
    is_first(line, '[', i) && is_last(line, ']', j) && i + 1 < j
}

/// The section name that `line` announces: what lies between its first `[`
/// and its last `]`, when that is not empty; `None` for a line that is no
/// section header.
pub open spec fn header_of(line: Seq<char>) -> Option<Seq<char>> {
    if exists|i: int, j: int| header_at(line, i, j) {
        let (i, j) = choose|i: int, j: int| header_at(line, i, j);
        Some(line.subrange(i + 1, j))
    } else {
        None
    }
}

/// A character has at most one first position in a string.
pub proof fn lemma_first_unique(s: Seq<char>, c: char)
    ensures
        forall|i: int, i2: int| is_first(s, c, i) && is_first(s, c, i2) ==> i == i2,
{
    assert forall|i: int, i2: int| is_first(s, c, i) && is_first(s, c, i2) implies i == i2 by {
        if i < i2 {
            assert(s[i] == c);
        }
        if i2 < i {
            assert(s[i2] == c);
        }
    }
}

/// A character has at most one last position in a string.
pub proof fn lemma_last_unique(s: Seq<char>, c: char)
    ensures
        forall|j: int, j2: int| is_last(s, c, j) && is_last(s, c, j2) ==> j == j2,
{
    assert forall|j: int, j2: int| is_last(s, c, j) && is_last(s, c, j2) implies j == j2 by {
        if j < j2 {
            assert(s[j2] == c);
        }
        if j2 < j {
            assert(s[j] == c);
        }
    }
}

/// The header line of a section named `name`.
pub open spec fn header_text(name: Seq<char>) -> Seq<char> {
    seq!['['] + name + seq![']']
}

/// A section as text: its header line, then its body lines, one per line.
pub open spec fn credential_text(c: CredentialView) -> Seq<char> {
    header_text(c.profile) + seq!['\n'] + join(c.lines, seq!['\n'])
}

/// One named section of the credentials file.
pub struct Credential {
    profile: String,
    lines: Vec<String>,
}

impl View for Credential {
    type V = CredentialView;

    closed spec fn view(&self) -> CredentialView {
        CredentialView { profile: self.profile@, lines: views(self.lines@) }
    }
}

impl Credential {
    /// A section always has a name.
    #[verifier::type_invariant]
    closed spec fn named(self) -> bool {
        self.profile@.len() > 0
    }

    /// The section `profile` with the body `lines`.
    pub fn new(profile: &str, lines: &[String]) -> (r: Self)
        requires
            profile@.len() > 0,
        ensures
            r@.profile == profile@,
            r@.lines == views(lines@),
    {
        let mut body: Vec<String> = Vec::new();
        for i in 0..lines.len()
            invariant
                views(body@) == views(lines@).subrange(0, i as int),
        {
            let ghost before = body@;
            body.push(lines[i].clone());
            assert(views(body@) =~= views(before).push(lines@[i as int]@));
            assert(views(lines@).subrange(0, i + 1) =~= views(lines@).subrange(0, i as int).push(
                lines@[i as int]@,
            ));
        }
        assert(views(lines@).subrange(0, lines@.len() as int) =~= views(lines@));
        Credential { profile: String::from_str(profile), lines: body }
    }

    /// The section's name.
    pub fn profile(&self) -> (r: &str)
        ensures
            r@ == self@.profile,
            r@.len() > 0,
    {
        proof {
            use_type_invariant(self);
        }
        self.profile.as_str()
    }

    /// The section's body lines.
    pub fn lines(&self) -> (r: &Vec<String>)
        ensures
            views(r@) == self@.lines,
    {
        &self.lines
    }

    /// The section as text: `[profile]`, a newline, then the body lines
    /// joined by newlines.
    pub fn to_string(&self) -> (r: String)
        ensures
            r@ == credential_text(self@),
    {
        let mut out = String::new();
        out.push('[');
        out.append(self.profile.as_str());
        out.push(']');
        out.push('\n');
        let ghost head = out@;
        let ghost body = views(self.lines@);
        for i in 0..self.lines.len()
            invariant
                body == views(self.lines@),
                out@ == head + join(body.subrange(0, i as int), seq!['\n']),
        {
            proof {
                let prefix = body.subrange(0, i + 1);
                assert(prefix.drop_last() =~= body.subrange(0, i as int));
                assert(prefix.last() == self.lines@[i as int]@);
            }
            if i > 0 {
                out.push('\n');
            }
            out.append(self.lines[i].as_str());
        }
        assert(body.subrange(0, body.len() as int) =~= body);
        out
    }
}

/// The section name that `line` announces, if it is a section header: the
/// text between its first `[` and its last `]`, when there is at least one
/// character between them.
pub fn capture_profile(line: &str) -> (r: Option<&str>)
    ensures
        r matches Some(p) ==> header_of(line@) == Some(p@),
        r is None ==> header_of(line@) is None,
{
    let cs = chars_of(line);
    let mut open: Option<usize> = None;
    let mut k: usize = 0;
    while k < cs.len()
        invariant
            k <= cs@.len(),
            open is None ==> forall|m: int| 0 <= m < k ==> cs@[m] != '[',
            open matches Some(i) ==> is_first(cs@, '[', i as int),
        decreases cs@.len() - k,
    {
        if open.is_none() && cs[k] == '[' {
            open = Some(k);
        }
        k = k + 1;
    }
    let mut close: Option<usize> = None;
    let mut k: usize = cs.len();
    while k > 0
        invariant
            k <= cs@.len(),
            close is None ==> forall|m: int| k <= m < cs@.len() ==> cs@[m] != ']',
            close matches Some(j) ==> is_last(cs@, ']', j as int),
        decreases k,
    {
        if close.is_none() && cs[k - 1] == ']' {
            close = Some(k - 1);
        }
        k = k - 1;
    }
    proof {
        lemma_first_unique(cs@, '[');
        lemma_last_unique(cs@, ']');
    }
    match (open, close) {
        (Some(i), Some(j)) => {
            if i + 1 < j {
                assert(header_at(line@, i as int, j as int));
                Some(line.substring_char(i + 1, j))
            } else {
                None
            }
        },
        _ => None,
    }
}

/// The parser's state after some lines: the sections already closed, and the
/// name and body lines of the section still open (an empty name while no
/// header has been read).
pub struct ParseState {
    pub done: Seq<CredentialView>,
    pub profile: Seq<char>,
    pub lines: Seq<Seq<char>>,
}

/// The state before the first line.
pub open spec fn parse_start() -> ParseState {
    ParseState { done: Seq::empty(), profile: Seq::empty(), lines: Seq::empty() }
}

/// The closed sections, followed by the open one when it has a name.
pub open spec fn flush(st: ParseState) -> Seq<CredentialView> {
    if st.profile.len() > 0 {
        st.done.push(CredentialView { profile: st.profile, lines: st.lines })
    } else {
        st.done
    }
}

/// One line read: a header closes the open section and opens a new one; an
/// empty line is skipped; any other line joins the open section's body.
pub open spec fn parse_step(st: ParseState, line: Seq<char>) -> ParseState {
    match header_of(line) {
        Some(name) => ParseState { done: flush(st), profile: name, lines: Seq::empty() },
        None => if line.len() == 0 {
            st
        } else {
            ParseState { lines: st.lines.push(line), ..st }
        },
    }
}

/// The state after reading `lines` from `st`.
pub open spec fn parse_run(st: ParseState, lines: Seq<Seq<char>>) -> ParseState
    decreases lines.len(),
{
    if lines.len() == 0 {
        st
    } else {
        parse_step(parse_run(st, lines.drop_last()), lines.last())
    }
}

/// The sections that `lines` hold, in the order of their headers.
pub open spec fn parse_lines(lines: Seq<Seq<char>>) -> Seq<CredentialView> {
    flush(parse_run(parse_start(), lines))
}

/// The sections that `text` holds, read line by line.
pub open spec fn parse_text(text: Seq<char>) -> Seq<CredentialView> {
    parse_lines(text_lines(text))
}

/// The sections without those named `profile`.
pub open spec fn without(cs: Seq<CredentialView>, profile: Seq<char>) -> Seq<CredentialView> {
    cs.filter(|c: CredentialView| c.profile != profile)
}

/// The whole file as text: the sections, with one empty line between each two.
pub open spec fn file_text(cs: Seq<CredentialView>) -> Seq<char> {
    join(cs.map_values(|c: CredentialView| credential_text(c)), seq!['\n', '\n'])
}

/// The views of a sequence of sections.
pub open spec fn credential_views(v: Seq<Credential>) -> Seq<CredentialView> {
    v.map_values(|c: Credential| c@)
}

/// The credentials file: its sections, in order.
pub struct ConfigFile {
    credentials: Vec<Credential>,
}

impl View for ConfigFile {
    type V = Seq<CredentialView>;

    closed spec fn view(&self) -> Seq<CredentialView> {
        credential_views(self.credentials@)
    }
}

impl ConfigFile {
    /// The file made of `credentials`, in that order.
    pub fn new(credentials: Vec<Credential>) -> (r: Self)
        ensures
            r@ == credential_views(credentials@),
    {
        ConfigFile { credentials }
    }

    /// The sections, in order.
    pub fn credentials(&self) -> (r: &Vec<Credential>)
        ensures
            credential_views(r@) == self@,
    {
        &self.credentials
    }

    /// Reads the sections of `text`, line by line (see `from_lines`).
    pub fn from_text(text: &str) -> (r: Self)
        ensures
            r@ == parse_text(text@),
    {
        let lines = split_lines(text);
        Self::from_lines(&lines)
    }

    /// Reads sections from `lines`. A line whose first `[` and last `]`
    /// enclose a name starts a section of that name; an empty line is
    /// skipped; any other line belongs to the section above it, and is
    /// dropped when no header came before it.
    pub fn from_lines(lines: &Vec<String>) -> (r: Self)
        ensures
            r@ == parse_lines(views(lines@)),
    {
        let ghost all = views(lines@);
        let mut credentials: Vec<Credential> = Vec::new();
        let mut profile = String::new();
        let mut body: Vec<String> = Vec::new();
        assert(credential_views(credentials@) =~= Seq::<CredentialView>::empty());
        assert(views(body@) =~= Seq::<Seq<char>>::empty());
        assert(all.subrange(0, 0) =~= Seq::<Seq<char>>::empty());
        for i in 0..lines.len()
            invariant
                all == views(lines@),
                parse_run(parse_start(), all.subrange(0, i as int)) == (ParseState {
                    done: credential_views(credentials@),
                    profile: profile@,
                    lines: views(body@),
                }),
        {
            let line = &lines[i];
            assert(all.subrange(0, i + 1).drop_last() =~= all.subrange(0, i as int));
            assert(all.subrange(0, i + 1).last() == line@);
            match capture_profile(line.as_str()) {
                Some(p) => {
                    Self::add_credential(profile.as_str(), body.as_slice(), &mut credentials);
                    profile = String::from_str(p);
                    body = Vec::new();
                    assert(views(body@) =~= Seq::<Seq<char>>::empty());
                },
                None => {
                    if !line.as_str().is_empty() {
                        let ghost before = body@;
                        body.push(line.clone());
                        assert(views(body@) =~= views(before).push(line@));
                    }
                },
            }
        }
        assert(all.subrange(0, lines@.len() as int) =~= all);
        Self::add_credential(profile.as_str(), body.as_slice(), &mut credentials);
        ConfigFile { credentials }
    }

    /// Closes the section `p` with body `ls`: appends it to `creds` when
    /// `p` is a name, that is, not empty.
    fn add_credential(p: &str, ls: &[String], creds: &mut Vec<Credential>)
        ensures
            credential_views(final(creds)@) == flush(
                ParseState { done: credential_views(old(creds)@), profile: p@, lines: views(ls@) },
            ),
    {
        if !p.is_empty() {
            let cred = Credential::new(p, ls);
            let ghost before = creds@;
            creds.push(cred);
            assert(credential_views(creds@) =~= credential_views(before).push(cred@));
        }
    }

    /// The file without the sections named `profile`; the others keep
    /// their order.
    pub fn remove_credential(self, profile: &str) -> (r: Self)
        ensures
            r@ == without(self@, profile@),
    {
        let name = String::from_str(profile);
        let ghost all = self@;
        let mut credentials: Vec<Credential> = Vec::new();
        assert(credential_views(credentials@) =~= Seq::<CredentialView>::empty());
        assert(all.subrange(0, 0) =~= Seq::<CredentialView>::empty());
        for cred in it: self.credentials
            invariant
                name@ == profile@,
                credential_views(it.seq()) == all,
                credential_views(credentials@) == without(
                    all.subrange(0, it.index() as int),
                    profile@,
                ),
        {
            let ghost prefix = all.subrange(0, it.index() + 1);
            proof {
                assert(prefix.drop_last() =~= all.subrange(0, it.index() as int));
                assert(prefix.last() == cred@);
                reveal(Seq::filter);
            }
            if !(cred.profile == name) {
                let ghost before = credentials@;
                credentials.push(cred);
                assert(credential_views(credentials@) =~= credential_views(before).push(cred@));
            }
        }
        assert(all.subrange(0, all.len() as int) =~= all);
        ConfigFile { credentials }
    }

    /// The file with `cred` appended after its sections.
    pub fn set_credential(self, cred: Credential) -> (r: Self)
        ensures
            r@ == self@.push(cred@),
    {
        let mut credentials = self.credentials;
        let ghost before = credentials@;
        credentials.push(cred);
        assert(credential_views(credentials@) =~= credential_views(before).push(cred@));
        ConfigFile { credentials }
    }

    /// The file as text: each section as `Credential::to_string` writes
    /// it, with an empty line between each two sections.
    pub fn to_string(&self) -> (r: String)
        ensures
            r@ == file_text(self@),
    {
        let ghost texts = self@.map_values(|c: CredentialView| credential_text(c));
        let mut out = String::new();
        for i in 0..self.credentials.len()
            invariant
                texts == self@.map_values(|c: CredentialView| credential_text(c)),
                texts.len() == self.credentials@.len(),
                out@ == join(texts.subrange(0, i as int), seq!['\n', '\n']),
        {
            proof {
                let prefix = texts.subrange(0, i + 1);
                assert(prefix.drop_last() =~= texts.subrange(0, i as int));
                assert(prefix.last() == credential_text(self.credentials@[i as int]@));
            }
            if i > 0 {
                out.push('\n');
                out.push('\n');
            }
            let text = self.credentials[i].to_string();
            out.append(text.as_str());
        }
        assert(texts.subrange(0, texts.len() as int) =~= texts);
        out
    }
}

} // verus!
