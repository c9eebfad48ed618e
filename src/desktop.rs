//! Installed-application descriptors (freedesktop `.desktop` entries): what
//! the launcher reads from one, and the command line it runs.
use vstd::prelude::*;
use crate::text::{
    chars_of, has_prefix, has_prefix_exec, has_suffix, has_suffix_exec, is_space, is_space_char,
    lower_of, same_chars, string_of, string_of_range, to_lower, trim, trim_chars,
};

verus! {

/// One installed application; `command` is its `Exec` line.
#[derive(Debug, Clone)]
pub struct DesktopApp {
    pub name: String,
    pub command: String,
    pub icon: Option<String>,
    pub comment: Option<String>,
    pub categories: Vec<String>,
    pub no_display: bool,
    pub terminal: bool,
}

/// The pieces of `s` between occurrences of `sep` (at least one piece).
pub open spec fn split_on(s: Seq<char>, sep: char) -> Seq<Seq<char>>
    decreases s.len(),
{
    if s.len() == 0 {
        seq![Seq::empty()]
    } else {
        let r = split_on(s.drop_last(), sep);
        if s.last() == sep {
            r.push(Seq::empty())
        } else {
            r.update(r.len() - 1, r.last().push(s.last()))
        }
    }
}

pub open spec fn views_of(v: Seq<Vec<char>>) -> Seq<Seq<char>> {
    v.map_values(|x: Vec<char>| x@)
}

/// The pieces of `s` between occurrences of `sep`.
pub fn split_chars(s: &Vec<char>, sep: char) -> (r: Vec<Vec<char>>)
    ensures
        views_of(r@) == split_on(s@, sep),
{
    let mut out: Vec<Vec<char>> = Vec::new();
    let mut cur: Vec<char> = Vec::new();
    let mut i: usize = 0;
    assert(s@.subrange(0, 0) =~= Seq::<char>::empty());
    assert(views_of(out@).push(cur@) =~= split_on(Seq::<char>::empty(), sep));
    while i < s.len()
        invariant
            i <= s@.len(),
            views_of(out@).push(cur@) == split_on(s@.subrange(0, i as int), sep),
        decreases s@.len() - i,
    {
        let c = s[i];
        proof {
            let t = s@.subrange(0, i + 1);
            assert(t.drop_last() =~= s@.subrange(0, i as int));
        }
        if c == sep {
            let done = cur;
            out.push(done);
            cur = Vec::new();
            assert(views_of(out@).push(cur@) =~= split_on(s@.subrange(0, i + 1), sep));
        } else {
            cur.push(c);
            assert(views_of(out@).push(cur@) =~= split_on(s@.subrange(0, i + 1), sep));
        }
        i = i + 1;
    }
    out.push(cur);
    assert(s@.subrange(0, s@.len() as int) =~= s@);
    assert(views_of(out@) =~= split_on(s@, sep));
    out
}

/// The parts that are not empty, in order.
pub open spec fn nonempty_parts(parts: Seq<Seq<char>>) -> Seq<Seq<char>>
    decreases parts.len(),
{
    if parts.len() == 0 {
        parts
    } else if parts.last().len() > 0 {
        nonempty_parts(parts.drop_last()).push(parts.last())
    } else {
        nonempty_parts(parts.drop_last())
    }
}

pub open spec fn string_views(v: Seq<String>) -> Seq<Seq<char>> {
    v.map_values(|x: String| x@)
}

/// The categories of a `Categories=` value: the parts between `;`, empty
/// ones left out.
pub open spec fn categories_of(value: Seq<char>) -> Seq<Seq<char>> {
    nonempty_parts(split_on(value, ';'))
}

fn split_categories(value: &Vec<char>) -> (r: Vec<String>)
    ensures
        string_views(r@) == categories_of(value@),
{
    let parts = split_chars(value, ';');
    let mut out: Vec<String> = Vec::new();
    let mut i: usize = 0;
    assert(views_of(parts@).subrange(0, 0) =~= Seq::<Seq<char>>::empty());
    while i < parts.len()
        invariant
            i <= parts@.len(),
            views_of(parts@) == split_on(value@, ';'),
            string_views(out@) == nonempty_parts(views_of(parts@).subrange(0, i as int)),
        decreases parts@.len() - i,
    {
        proof {
            let t = views_of(parts@).subrange(0, i + 1);
            assert(t.drop_last() =~= views_of(parts@).subrange(0, i as int));
        }
        if parts[i].len() > 0 {
            out.push(string_of(&parts[i]));
        }
        assert(string_views(out@) =~= nonempty_parts(views_of(parts@).subrange(0, i + 1)));
        i = i + 1;
    }
    assert(views_of(parts@).subrange(0, parts@.len() as int) =~= views_of(parts@));
    out
}

/// What has been read of an entry so far.
pub struct EntryFields {
    pub name: Seq<char>,
    pub command: Seq<char>,
    pub icon: Option<Seq<char>>,
    pub comment: Option<Seq<char>>,
    pub categories: Seq<Seq<char>>,
    pub no_display: bool,
    pub terminal: bool,
}

pub open spec fn no_fields() -> EntryFields {
    EntryFields {
        name: Seq::empty(),
        command: Seq::empty(),
        icon: None,
        comment: None,
        categories: Seq::empty(),
        no_display: false,
        terminal: false,
    }
}

pub open spec fn opt_view(o: Option<String>) -> Option<Seq<char>> {
    match o {
        Some(s) => Some(s@),
        None => None,
    }
}

/// What a parsed application holds, as sequences.
pub open spec fn fields_of(app: DesktopApp) -> EntryFields {
    EntryFields {
        name: app.name@,
        command: app.command@,
        icon: opt_view(app.icon),
        comment: opt_view(app.comment),
        categories: string_views(app.categories@),
        no_display: app.no_display,
        terminal: app.terminal,
    }
}

/// Where the first `=` of `line` stands, if any.
pub open spec fn first_eq(line: Seq<char>) -> int
    decreases line.len(),
{
    if line.len() == 0 {
        -1
    } else if line[0] == '=' {
        0
    } else {
        let r = first_eq(line.drop_first());
        if r < 0 {
            -1
        } else {
            r + 1
        }
    }
}

/// The fields after one `key=value` line of the `[Desktop Entry]` group.
pub open spec fn with_key(f: EntryFields, key: Seq<char>, value: Seq<char>) -> EntryFields {
    if key == "Name"@ {
        EntryFields { name: value, ..f }
    } else if key == "Exec"@ {
        EntryFields { command: value, ..f }
    } else if key == "Icon"@ {
        EntryFields { icon: Some(value), ..f }
    } else if key == "Comment"@ {
        EntryFields { comment: Some(value), ..f }
    } else if key == "Categories"@ {
        EntryFields { categories: categories_of(value), ..f }
    } else if key == "NoDisplay"@ {
        EntryFields { no_display: lower_of(value) == "true"@, ..f }
    } else if key == "Terminal"@ {
        EntryFields { terminal: lower_of(value) == "true"@, ..f }
    } else {
        f
    }
}

/// The state after one raw line: whether the reader is inside the
/// `[Desktop Entry]` group, and what it has read. Lines are trimmed; a
/// group header switches groups; empty lines and `#` comments are skipped;
/// inside the group, a line with `=` sets the key before the first `=`.
pub open spec fn after_line(state: (bool, EntryFields), raw: Seq<char>) -> (bool, EntryFields) {
    let line = trim(raw);
    if line == "[Desktop Entry]"@ {
        (true, state.1)
    } else if has_prefix(line, "["@) && has_suffix(line, "]"@) {
        (false, state.1)
    } else if !state.0 || line.len() == 0 || has_prefix(line, "#"@) {
        state
    } else {
        let k = first_eq(line);
        if k < 0 {
            state
        } else {
            (
                state.0,
                with_key(state.1, line.subrange(0, k), line.subrange(k + 1, line.len() as int)),
            )
        }
    }
}

/// The state after a sequence of lines, from outside any group.
pub open spec fn after_lines(lines: Seq<Seq<char>>) -> (bool, EntryFields)
    decreases lines.len(),
{
    if lines.len() == 0 {
        (false, no_fields())
    } else {
        after_line(after_lines(lines.drop_last()), lines.last())
    }
}

/// The application an entry describes: none if it has no name, no command,
/// or asks not to be shown.
pub open spec fn desktop_entry(content: Seq<char>) -> Option<EntryFields> {
    let f = after_lines(split_on(content, '\n')).1;
    if f.name.len() == 0 || f.command.len() == 0 || f.no_display {
        None
    } else {
        Some(f)
    }
}

fn first_eq_exec(line: &Vec<char>) -> (r: Option<usize>)
    ensures
        r matches Some(k) ==> first_eq(line@) == k as int && k < line@.len(),
        r is None ==> first_eq(line@) < 0,
{
    let mut i: usize = 0;
    assert(line@.subrange(0, line@.len() as int) =~= line@);
    while i < line.len()
        invariant
            i <= line@.len(),
            first_eq(line@) == if first_eq(line@.subrange(i as int, line@.len() as int)) < 0 {
                -1
            } else {
                first_eq(line@.subrange(i as int, line@.len() as int)) + i
            },
        decreases line@.len() - i,
    {
        if line[i] == '=' {
            return Some(i);
        }
        assert(line@.subrange(i as int, line@.len() as int).drop_first() =~= line@.subrange(
            i + 1,
            line@.len() as int,
        ));
        i = i + 1;
    }
    None
}

fn is_true_word(value: &Vec<char>) -> (r: bool)
    ensures
        r == (lower_of(value@) == "true"@),
{
    let v = string_of(value);
    let l = chars_of(to_lower(v.as_str()).as_str());
    let t = chars_of("true");
    same_chars(&l, &t)
}

fn literal(s: &str) -> (r: Vec<char>)
    ensures
        r@ == s@,
{
    chars_of(s)
}

impl DesktopApp {
    fn empty() -> (r: Self)
        ensures
            fields_of(r) == no_fields(),
    {
        let r = DesktopApp {
            name: String::new(),
            command: String::new(),
            icon: None,
            comment: None,
            categories: Vec::new(),
            no_display: false,
            terminal: false,
        };
        assert(string_views(r.categories@) =~= Seq::<Seq<char>>::empty());
        r
    }

    fn set_key(&mut self, key: &Vec<char>, value: &Vec<char>)
        ensures
            fields_of(*final(self)) == with_key(fields_of(*old(self)), key@, value@),
    {
        if same_chars(key, &literal("Name")) {
            self.name = string_of(value);
        } else if same_chars(key, &literal("Exec")) {
            self.command = string_of(value);
        } else if same_chars(key, &literal("Icon")) {
            self.icon = Some(string_of(value));
        } else if same_chars(key, &literal("Comment")) {
            self.comment = Some(string_of(value));
        } else if same_chars(key, &literal("Categories")) {
            self.categories = split_categories(value);
        } else if same_chars(key, &literal("NoDisplay")) {
            self.no_display = is_true_word(value);
        } else if same_chars(key, &literal("Terminal")) {
            self.terminal = is_true_word(value);
        }
    }

    /// Reads an application from the text of its `.desktop` file: the
    /// `Name`, `Exec`, `Icon`, `Comment`, `Categories`, `NoDisplay` and
    /// `Terminal` keys of the `[Desktop Entry]` group (the last line of a
    /// key wins). None where the name or the command is missing, or the
    /// entry asks not to be shown.
    pub fn from_desktop_entry(content: &str) -> (r: Option<DesktopApp>)
        ensures
            r matches Some(app) ==> desktop_entry(content@) == Some(fields_of(app)),
            r is None ==> desktop_entry(content@) is None,
    {
        let chars = chars_of(content);
        let lines = split_chars(&chars, '\n');
        let ghost ls = views_of(lines@);
        let mut app = DesktopApp::empty();
        let mut in_entry = false;
        let mut i: usize = 0;
        assert(ls.subrange(0, 0) =~= Seq::<Seq<char>>::empty());
        while i < lines.len()
            invariant
                i <= lines@.len(),
                ls == views_of(lines@),
                (in_entry, fields_of(app)) == after_lines(ls.subrange(0, i as int)),
            decreases lines@.len() - i,
        {
            proof {
                let t = ls.subrange(0, i + 1);
                assert(t.drop_last() =~= ls.subrange(0, i as int));
                reveal_strlit("[Desktop Entry]");
                reveal_strlit("[");
                reveal_strlit("]");
                reveal_strlit("#");
            }
            let line = trim_chars(&lines[i]);
            if same_chars(&line, &literal("[Desktop Entry]")) {
                in_entry = true;
            } else if has_prefix_exec(&line, &literal("[")) && has_suffix_exec(&line, &literal("]")) {
                in_entry = false;
            } else if !in_entry || line.len() == 0 || has_prefix_exec(&line, &literal("#")) {
            } else {
                match first_eq_exec(&line) {
                    Some(k) => {
                        let key = crate::text::chars_of(string_of_range(&line, 0, k).as_str());
                        let value = crate::text::chars_of(
                            string_of_range(&line, k + 1, line.len()).as_str(),
                        );
                        app.set_key(&key, &value);
                    },
                    None => {},
                }
            }
            i = i + 1;
        }
        assert(ls.subrange(0, lines@.len() as int) =~= ls);
        if app.name.as_str().unicode_len() == 0 || app.command.as_str().unicode_len() == 0
            || app.no_display {
            None
        } else {
            Some(app)
        }
    }
}


/// The field codes of an `Exec` line that the launcher drops.
pub open spec fn field_codes() -> Seq<Seq<char>> {
    seq![
        "%f"@, "%F"@, "%u"@, "%U"@, "%d"@, "%D"@, "%n"@, "%N"@, "%i"@, "%c"@, "%k"@, "%v"@,
        "%m"@,
    ]
}

/// `s` with every occurrence of `p` removed, scanning from the left as
/// `str::replace(p, "")` does.
pub open spec fn remove_all(s: Seq<char>, p: Seq<char>) -> Seq<char>
    decreases s.len(),
{
    if p.len() == 0 || s.len() == 0 {
        s
    } else if has_prefix(s, p) {
        remove_all(s.subrange(p.len() as int, s.len() as int), p)
    } else {
        seq![s[0]] + remove_all(s.drop_first(), p)
    }
}

/// `s` with each of `codes` removed in turn.
pub open spec fn remove_codes(s: Seq<char>, codes: Seq<Seq<char>>) -> Seq<char>
    decreases codes.len(),
{
    if codes.len() == 0 {
        s
    } else {
        remove_codes(remove_all(s, codes[0]), codes.drop_first())
    }
}

/// The words of `s` (split at white space), appended to `out` with one
/// space between words; `pending` says a space is owed before the next word.
pub open spec fn squeeze_into(s: Seq<char>, out: Seq<char>, pending: bool) -> Seq<char>
    decreases s.len(),
{
    if s.len() == 0 {
        out
    } else if is_space(s[0]) {
        squeeze_into(s.drop_first(), out, out.len() > 0)
    } else {
        let out2 = if pending {
            out.push(' ')
        } else {
            out
        };
        squeeze_into(s.drop_first(), out2.push(s[0]), false)
    }
}

/// The words of `s` joined by single spaces.
pub open spec fn squeeze(s: Seq<char>) -> Seq<char> {
    squeeze_into(s, Seq::empty(), false)
}

/// The command line an `Exec` value runs: field codes dropped, words joined
/// by single spaces.
pub open spec fn cleaned_command(exec: Seq<char>) -> Seq<char> {
    squeeze(remove_codes(exec, field_codes()))
}

fn remove_all_exec(s: &Vec<char>, p: &Vec<char>) -> (r: Vec<char>)
    ensures
        r@ == remove_all(s@, p@),
{
    if p.len() == 0 {
        let mut r: Vec<char> = Vec::new();
        let mut k: usize = 0;
        while k < s.len()
            invariant
                k <= s@.len(),
                r@ == s@.subrange(0, k as int),
            decreases s@.len() - k,
        {
            r.push(s[k]);
            k = k + 1;
            assert(r@ =~= s@.subrange(0, k as int));
        }
        assert(r@ =~= s@);
        return r;
    }
    let n = s.len();
    let mut out: Vec<char> = Vec::new();
    let mut i: usize = 0;
    assert(s@.subrange(0, n as int) =~= s@);
    while i < n
        invariant
            n == s@.len(),
            i <= n,
            p@.len() > 0,
            remove_all(s@, p@) == out@ + remove_all(s@.subrange(i as int, n as int), p@),
        decreases n - i,
    {
        let ghost rest = s@.subrange(i as int, n as int);
        if crate::text::occurs_at_exec(s, p, i) {
            assert(rest.subrange(0, p@.len() as int) =~= s@.subrange(i as int, i + p@.len()));
            assert(rest.subrange(p@.len() as int, rest.len() as int) =~= s@.subrange(
                i + p@.len(),
                n as int,
            ));
            i = i + p.len();
        } else {
            assert(!has_prefix(rest, p@)) by {
                if p@.len() <= rest.len() {
                    assert(rest.subrange(0, p@.len() as int) =~= s@.subrange(
                        i as int,
                        i + p@.len(),
                    ));
                }
            }
            assert(rest.drop_first() =~= s@.subrange(i + 1, n as int));
            out.push(s[i]);
            i = i + 1;
            assert(remove_all(s@, p@) =~= out@ + remove_all(s@.subrange(i as int, n as int), p@));
        }
    }
    assert(s@.subrange(n as int, n as int) =~= Seq::<char>::empty());
    assert(out@ + Seq::<char>::empty() =~= out@);
    out
}

fn field_code_list() -> (r: Vec<Vec<char>>)
    ensures
        views_of(r@) == field_codes(),
{
    let mut r: Vec<Vec<char>> = Vec::new();
    r.push(literal("%f"));
    r.push(literal("%F"));
    r.push(literal("%u"));
    r.push(literal("%U"));
    r.push(literal("%d"));
    r.push(literal("%D"));
    r.push(literal("%n"));
    r.push(literal("%N"));
    r.push(literal("%i"));
    r.push(literal("%c"));
    r.push(literal("%k"));
    r.push(literal("%v"));
    r.push(literal("%m"));
    assert(views_of(r@) =~= field_codes());
    r
}

fn squeeze_exec(s: &Vec<char>) -> (r: Vec<char>)
    ensures
        r@ == squeeze(s@),
{
    let n = s.len();
    let mut out: Vec<char> = Vec::new();
    let mut pending = false;
    let mut i: usize = 0;
    assert(s@.subrange(0, n as int) =~= s@);
    while i < n
        invariant
            n == s@.len(),
            i <= n,
            squeeze(s@) == squeeze_into(s@.subrange(i as int, n as int), out@, pending),
        decreases n - i,
    {
        assert(s@.subrange(i as int, n as int).drop_first() =~= s@.subrange(i + 1, n as int));
        let c = s[i];
        if is_space_char(c) {
            pending = out.len() > 0;
        } else {
            if pending {
                out.push(' ');
            }
            out.push(c);
            pending = false;
        }
        i = i + 1;
    }
    out
}

impl DesktopApp {
    /// The command line to run: the `Exec` value without its field codes
    /// (`%f`, `%u`, ...), words joined by single spaces.
    pub fn clean_exec_command(&self) -> (r: String)
        ensures
            r@ == cleaned_command(self.command@),
    {
        let codes = field_code_list();
        let mut cur = chars_of(self.command.as_str());
        let mut i: usize = 0;
        assert(views_of(codes@).subrange(0, codes@.len() as int) =~= views_of(codes@));
        while i < codes.len()
            invariant
                i <= codes@.len(),
                views_of(codes@) == field_codes(),
                remove_codes(self.command@, field_codes()) == remove_codes(
                    cur@,
                    views_of(codes@).subrange(i as int, codes@.len() as int),
                ),
            decreases codes@.len() - i,
        {
            let ghost rest = views_of(codes@).subrange(i as int, codes@.len() as int);
            assert(rest.drop_first() =~= views_of(codes@).subrange(i + 1, codes@.len() as int));
            assert(rest[0] == codes@[i as int]@);
            cur = remove_all_exec(&cur, &codes[i]);
            i = i + 1;
        }
        let squeezed = squeeze_exec(&cur);
        string_of(&squeezed)
    }
}

} // verus!
