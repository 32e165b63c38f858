//! Call sites and origin chains, and their textual form.
use vstd::prelude::*;
use vstd::string::StringExecFns;

verus! {

/// Identifier of one handle, unique among the handles of one shared value.
pub type Uid = usize;

/// Where an operation on a handle happened.
pub enum Site {
    /// A position in a source file.
    SourceFile {
        /// Source file.
        file: &'static str,
        /// Line number, starting at 1.
        line: usize,
    },
    /// No information about the call site was available.
    Unknown,
    /// A free-text note.
    Annotated(String),
}

/// How a handle came into being; all kinds but `New` hold the origin of the parent handle.
pub enum OriginKind {
    /// A new shared value was created.
    New,
    /// Cloned from another handle of the same kind.
    Cloned(Box<Origin>),
    /// Upgraded from a weak handle.
    Upgraded(Box<Origin>),
    /// Downgraded from a strong handle.
    Downgraded(Box<Origin>),
}

/// The origin of one handle: its kind, its call site and the id it was given.
pub struct Origin {
    pub kind: OriginKind,
    pub site: Site,
    pub id: Uid,
}

/// The decimal digit for `d < 10`.
pub open spec fn digit_char(d: nat) -> char {
    if d == 0 { '0' }
    else if d == 1 { '1' }
    else if d == 2 { '2' }
    else if d == 3 { '3' }
    else if d == 4 { '4' }
    else if d == 5 { '5' }
    else if d == 6 { '6' }
    else if d == 7 { '7' }
    else if d == 8 { '8' }
    else { '9' }
}

/// Decimal notation of `n`, without leading zeros.
pub open spec fn decimal(n: nat) -> Seq<char>
    decreases n,
{
    if n < 10 {
        seq![digit_char(n)]
    } else {
        decimal(n / 10).push(digit_char(n % 10))
    }
}

/// Text of a call site: `file:line`, `?`, or the note in double quotes.
pub open spec fn site_text(site: Site) -> Seq<char> {
    match site {
        Site::SourceFile { file, line } => file@ + seq![':'] + decimal(line as nat),
        Site::Unknown => seq!['?'],
        Site::Annotated(note) => seq!['"'] + note@ + seq!['"'],
    }
}

/// The word that names a kind of origin.
pub open spec fn kind_word(kind: OriginKind) -> Seq<char> {
    match kind {
        OriginKind::New => seq!['n', 'e', 'w'],
        OriginKind::Cloned(_) => seq!['c', 'l', 'o', 'n', 'e'],
        OriginKind::Upgraded(_) => seq!['u', 'p', 'g', 'r', 'a', 'd', 'e'],
        OriginKind::Downgraded(_) => seq!['d', 'o', 'w', 'n', 'g', 'r', 'a', 'd', 'e'],
    }
}

/// Text of a single link, `<kind><id>[<site>]`, without its ancestors.
pub open spec fn link_text(o: Origin) -> Seq<char> {
    kind_word(o.kind) + seq!['<'] + decimal(o.id as nat) + seq!['>', '['] + site_text(o.site)
        + seq![']']
}

/// The separator between two links of a chain.
pub open spec fn arrow() -> Seq<char> {
    seq![' ', '<', '-', ' ']
}

impl Origin {
    /// The origin of the parent handle, if any.
    pub open spec fn parent(self) -> Option<Origin> {
        match self.kind {
            OriginKind::New => None,
            OriginKind::Cloned(p) => Some(*p),
            OriginKind::Upgraded(p) => Some(*p),
            OriginKind::Downgraded(p) => Some(*p),
        }
    }

    /// The chain of origins from this one up to the creation of the value, this one first.
    pub open spec fn chain(self) -> Seq<Origin>
        decreases self,
    {
        match self.kind {
            OriginKind::New => seq![self],
            OriginKind::Cloned(p) => seq![self] + p.chain(),
            OriginKind::Upgraded(p) => seq![self] + p.chain(),
            OriginKind::Downgraded(p) => seq![self] + p.chain(),
        }
    }

    /// The rendered chain: each link's text, joined by ` <- `, this one first.
    pub open spec fn text(self) -> Seq<char>
        decreases self,
    {
        match self.kind {
            OriginKind::New => link_text(self),
            OriginKind::Cloned(p) => link_text(self) + arrow() + p.text(),
            OriginKind::Upgraded(p) => link_text(self) + arrow() + p.text(),
            OriginKind::Downgraded(p) => link_text(self) + arrow() + p.text(),
        }
    }
}

/// The text of the decimal digit `d`.
fn digit_str(d: usize) -> (r: &'static str)
    requires
        d < 10,
    ensures
        r@ == seq![digit_char(d as nat)],
{
    proof {
        reveal_strlit("0");
        reveal_strlit("1");
        reveal_strlit("2");
        reveal_strlit("3");
        reveal_strlit("4");
        reveal_strlit("5");
        reveal_strlit("6");
        reveal_strlit("7");
        reveal_strlit("8");
        reveal_strlit("9");
    }
    if d == 0 { "0" }
    else if d == 1 { "1" }
    else if d == 2 { "2" }
    else if d == 3 { "3" }
    else if d == 4 { "4" }
    else if d == 5 { "5" }
    else if d == 6 { "6" }
    else if d == 7 { "7" }
    else if d == 8 { "8" }
    else { "9" }
}

/// Appends the decimal notation of `n` to `out`.
pub fn push_decimal(out: &mut String, n: usize)
    ensures
        final(out)@ == old(out)@ + decimal(n as nat),
    decreases n,
{
    if n >= 10 {
        push_decimal(out, n / 10);
    }
    out.append(digit_str(n % 10));
    assert(final(out)@ =~= old(out)@ + decimal(n as nat));
}

impl Clone for Site {
    fn clone(&self) -> (r: Site)
        ensures
            r == *self,
    {
        match self {
            Site::SourceFile { file, line } => Site::SourceFile { file: *file, line: *line },
            Site::Unknown => Site::Unknown,
            Site::Annotated(note) => Site::Annotated(note.clone()),
        }
    }
}

impl Site {
    /// Appends the text of this site to `out`.
    pub fn push_text(&self, out: &mut String)
        ensures
            final(out)@ == old(out)@ + site_text(*self),
    {
        proof {
            reveal_strlit(":");
            reveal_strlit("?");
            reveal_strlit("\"");
        }
        match self {
            Site::SourceFile { file, line } => {
                out.append(file);
                out.append(":");
                push_decimal(out, *line);
            },
            Site::Unknown => {
                out.append("?");
            },
            Site::Annotated(note) => {
                out.append("\"");
                out.append(note.as_str());
                out.append("\"");
            },
        }
        assert(final(out)@ =~= old(out)@ + site_text(*self));
    }

    /// The text of this site: `file:line`, `?`, or the note in double quotes.
    pub fn render(&self) -> (r: String)
        ensures
            r@ == site_text(*self),
    {
        let mut out = String::new();
        self.push_text(&mut out);
        out
    }
}

impl Clone for Origin {
    fn clone(&self) -> (r: Origin)
        ensures
            r == *self,
        decreases self,
    {
        let kind = match &self.kind {
            OriginKind::New => OriginKind::New,
            OriginKind::Cloned(p) => OriginKind::Cloned(Box::new((&**p).clone())),
            OriginKind::Upgraded(p) => OriginKind::Upgraded(Box::new((&**p).clone())),
            OriginKind::Downgraded(p) => OriginKind::Downgraded(Box::new((&**p).clone())),
        };
        Origin { kind, site: self.site.clone(), id: self.id }
    }
}

impl Origin {
    /// Appends the text of this link alone to `out`.
    fn push_link(&self, out: &mut String)
        ensures
            final(out)@ == old(out)@ + link_text(*self),
    {
        proof {
            reveal_strlit("new");
            reveal_strlit("clone");
            reveal_strlit("upgrade");
            reveal_strlit("downgrade");
            reveal_strlit("<");
            reveal_strlit(">[");
            reveal_strlit("]");
        }
        match &self.kind {
            OriginKind::New => out.append("new"),
            OriginKind::Cloned(_) => out.append("clone"),
            OriginKind::Upgraded(_) => out.append("upgrade"),
            OriginKind::Downgraded(_) => out.append("downgrade"),
        }
        out.append("<");
        push_decimal(out, self.id);
        out.append(">[");
        self.site.push_text(out);
        out.append("]");
        assert(final(out)@ =~= old(out)@ + link_text(*self));
    }

    /// Appends the rendered chain of this origin to `out`.
    pub fn push_text(&self, out: &mut String)
        ensures
            final(out)@ == old(out)@ + self.text(),
        decreases self,
    {
        proof {
            reveal_strlit(" <- ");
        }
        self.push_link(out);
        match &self.kind {
            OriginKind::New => {},
            OriginKind::Cloned(p) | OriginKind::Upgraded(p) | OriginKind::Downgraded(p) => {
                out.append(" <- ");
                (&**p).push_text(out);
            },
        }
        assert(final(out)@ =~= old(out)@ + self.text());
    }

    /// The rendered chain, `<kind><id>[<site>]` for each link, joined by ` <- `, this handle
    /// first and the creation of the value last.
    pub fn render(&self) -> (r: String)
        ensures
            r@ == self.text(),
    {
        let mut out = String::new();
        self.push_text(&mut out);
        out
    }
}

/// One line per origin of `s`, in order: `prefix`, the rendered chain, a line break.
pub open spec fn lines_text(prefix: Seq<char>, s: Seq<Origin>) -> Seq<char>
    decreases s.len(),
{
    if s.len() == 0 {
        seq![]
    } else {
        lines_text(prefix, s.drop_last()) + prefix + s.last().text() + seq!['\n']
    }
}

/// The header line of a family listing.
pub open spec fn family_header(id: Uid) -> Seq<char> {
    "Family associated with ID: "@ + decimal(id as nat) + seq!['\n']
}

/// A family listing: the header for handle `id`, then a line `S| <chain>` for each strong
/// origin and a line `W| <chain>` for each weak origin.
pub open spec fn family_text(id: Uid, strongs: Seq<Origin>, weaks: Seq<Origin>) -> Seq<char> {
    family_header(id) + lines_text("S| "@, strongs) + lines_text("W| "@, weaks)
}

/// Appends one line per origin of `s` to `out`, each starting with `prefix`.
fn push_lines(out: &mut String, prefix: &str, s: &Vec<Origin>)
    ensures
        final(out)@ == old(out)@ + lines_text(prefix@, s@),
{
    let mut i: usize = 0;
    while i < s.len()
        invariant
            i <= s@.len(),
            out@ == old(out)@ + lines_text(prefix@, s@.subrange(0, i as int)),
        decreases s@.len() - i,
    {
        let ghost before = out@;
        out.append(prefix);
        s[i].push_text(out);
        out.append("\n");
        proof {
            let t = s@.subrange(0, i + 1);
            reveal_strlit("\n");
            assert(t.last() == s@[i as int]);
            assert(t.drop_last() =~= s@.subrange(0, i as int));
            assert(out@ =~= before + prefix@ + t.last().text() + seq!['\n']);
        }
        i += 1;
    }
    assert(s@.subrange(0, s@.len() as int) =~= s@);
}

/// Renders the family of handle `id` from the origins of its strong and weak siblings.
pub fn render_family(id: Uid, strongs: &Vec<Origin>, weaks: &Vec<Origin>) -> (r: String)
    ensures
        r@ == family_text(id, strongs@, weaks@),
{
    proof {
        reveal_strlit("Family associated with ID: ");
        reveal_strlit("\n");
    }
    let mut out = String::new();
    out.append("Family associated with ID: ");
    push_decimal(&mut out, id);
    out.append("\n");
    assert(out@ =~= family_header(id));
    push_lines(&mut out, "S| ", strongs);
    push_lines(&mut out, "W| ", weaks);
    assert(out@ =~= family_text(id, strongs@, weaks@));
    out
}

} // verus!
