//! Fetcher settings: the `config.yml` structure, the `repos.csv` line format
//! and the path helpers used to locate the files named in it.
use vstd::prelude::*;
use crate::text::{
    trim, split_on, decimal, views, chars_of, split_chars, trim_chars, push_str_chars,
    push_decimal, push_chars, string_from_chars, lemma_split_on_nonempty, trim_end_matches,
    trim_start_matches, has_prefix, str_debug, debug_quoted, trim_end_matches_chars,
    trim_start_matches_chars, matches_at, sub_chars, lemma_trim_end_matches_prefix,
    lemma_trim_end_char, lemma_trim_start_char, lemma_trimmed_ends, is_ws, trim_start, trim_end,
    has_suffix, lemma_split_on_concat, lemma_split_on_none,
};

verus! {

/// The whole `config.yml`.
pub struct AppConfig {
    pub gitlab: GitlabCfg,
    pub defaults: Defaults,
    pub repos_file: String,
    pub output_dir: String,
}

/// The `gitlab:` section of `config.yml`.
pub struct GitlabCfg {
    pub url: String,
    pub token_env: String,
}

/// The `defaults:` section of `config.yml`.
pub struct Defaults {
    pub nest: u32,
}

/// Output directory used when `config.yml` names none.
pub fn default_output_dir() -> (r: String)
    ensures
        r@ == "site/data"@,
{
    String::from_str("site/data")
}

/// Tree depth used when neither `repos.csv` nor `config.yml` names one.
pub fn default_nest() -> (r: u32)
    ensures
        r == 1,
{
    1
}

impl Default for Defaults {
    fn default() -> (r: Self)
        ensures
            r.nest == 1,
    {
        Defaults { nest: default_nest() }
    }
}

/// One line of `repos.csv`. The API is addressed by `id`
/// (`/api/v4/projects/:id`); `url` is kept for messages only.
#[derive(Debug, Clone, PartialEq, Eq)]
pub struct RepoEntry {
    pub id: String,
    pub url: String,
    pub nest: u32,
}

impl View for RepoEntry {
    type V = (Seq<char>, Seq<char>, u32);

    open spec fn view(&self) -> Self::V {
        (self.id@, self.url@, self.nest)
    }
}


/// Why a decimal field failed to parse, as `core::num::IntErrorKind` names
/// the cases that can occur for `u32`.
#[derive(Debug, Clone, Copy, PartialEq, Eq)]
pub enum IntErrorKind {
    Empty,
    InvalidDigit,
    PosOverflow,
}

/// The text that `ParseIntError` displays for each kind.
pub open spec fn int_error_message(k: IntErrorKind) -> Seq<char> {
    match k {
        IntErrorKind::Empty => "cannot parse integer from empty string"@,
        IntErrorKind::InvalidDigit => "invalid digit found in string"@,
        IntErrorKind::PosOverflow => "number too large to fit in target type"@,
    }
}

pub open spec fn is_digit(c: char) -> bool {
    '0' <= c && c <= '9'
}

/// Reads decimal digits left to right onto `acc`; the first character that
/// is not a digit, or the first digit that takes the value past `u32::MAX`,
/// ends the scan with an error.
pub open spec fn parse_digits(ds: Seq<char>, acc: int) -> Result<u32, IntErrorKind>
    decreases ds.len(),
{
    if ds.len() == 0 {
        Ok(acc as u32)
    } else if !is_digit(ds[0]) {
        Err(IntErrorKind::InvalidDigit)
    } else {
        let n = acc * 10 + (ds[0] as int - 48);
        if n > u32::MAX {
            Err(IntErrorKind::PosOverflow)
        } else {
            parse_digits(ds.drop_first(), n)
        }
    }
}

/// `<u32 as FromStr>::from_str`: an optional `+`, then decimal digits.
pub open spec fn parse_u32(s: Seq<char>) -> Result<u32, IntErrorKind> {
    if s.len() == 0 {
        Err(IntErrorKind::Empty)
    } else if s.len() == 1 && (s[0] == '+' || s[0] == '-') {
        Err(IntErrorKind::InvalidDigit)
    } else if s[0] == '+' {
        parse_digits(s.drop_first(), 0)
    } else {
        parse_digits(s, 0)
    }
}

/// Parses a decimal `u32` as `str::parse::<u32>` does.
pub fn parse_u32_chars(s: &Vec<char>) -> (r: Result<u32, IntErrorKind>)
    ensures
        r == parse_u32(s@),
{
    if s.len() == 0 {
        return Err(IntErrorKind::Empty);
    }
    if s.len() == 1 && (s[0] == '+' || s[0] == '-') {
        return Err(IntErrorKind::InvalidDigit);
    }
    let start: usize = if s[0] == '+' { 1 } else { 0 };
    let ghost ds = s@.skip(start as int);
    assert(start == 1 ==> ds == s@.drop_first());
    assert(start == 0 ==> ds == s@);
    assert(parse_u32(s@) == parse_digits(ds, 0));
    let mut acc: u32 = 0;
    let mut i: usize = start;
    while i < s.len()
        invariant
            start <= i <= s@.len(),
            ds == s@.skip(start as int),
            parse_u32(s@) == parse_digits(ds, 0),
            parse_digits(ds, 0) == parse_digits(s@.skip(i as int), acc as int),
        decreases s@.len() - i,
    {
        let c = s[i];
        assert(s@.skip(i as int)[0] == c);
        assert(s@.skip(i as int).drop_first() == s@.skip(i + 1));
        if !('0' <= c && c <= '9') {
            return Err(IntErrorKind::InvalidDigit);
        }
        let d: u32 = (c as u32) - 48;
        if acc > 429496729 || (acc == 429496729 && d > 5) {
            return Err(IntErrorKind::PosOverflow);
        }
        acc = acc * 10 + d;
        i += 1;
    }
    assert(s@.skip(i as int).len() == 0);
    Ok(acc)
}

/// `str::lines`: the text split at `\n`, without the empty piece after a
/// final `\n`; a line that a `\n` ends loses one `\r` before it.
pub open spec fn text_lines(text: Seq<char>) -> Seq<Seq<char>> {
    let segs = split_on(text, '\n');
    let ended = segs.drop_last().map_values(|l: Seq<char>| strip_cr(l));
    if segs.last().len() == 0 {
        ended
    } else {
        ended.push(segs.last())
    }
}

pub open spec fn strip_cr(l: Seq<char>) -> Seq<char> {
    if l.len() > 0 && l.last() == '\r' {
        l.drop_last()
    } else {
        l
    }
}

/// What one `repos.csv` line contributes.
pub enum LineOutcome {
    Skip,
    Entry((Seq<char>, Seq<char>, u32)),
    Fail(Seq<char>),
}

/// `line N: ` followed by `what`.
pub open spec fn line_message(lineno: nat, what: Seq<char>) -> Seq<char> {
    "line "@ + decimal(lineno) + ": "@ + what
}

pub open spec fn field_count_message(lineno: nat, got: nat) -> Seq<char> {
    line_message(
        lineno,
        "expected 'id,url[,nest]' (2 or 3 fields), got "@ + decimal(got) + " fields"@,
    )
}

/// The comma-separated fields of a line, each trimmed.
pub open spec fn line_fields(s: Seq<char>) -> Seq<Seq<char>> {
    split_on(s, ',').map_values(|f: Seq<char>| trim(f))
}

/// One line of `repos.csv` (numbered from 1): blank lines and lines that
/// begin with `#` are skipped; otherwise `id,url[,nest]` with each field
/// trimmed, `nest` defaulting to `default_nest`. The checks come in this
/// order: field count, `nest`, empty `id`, empty `url`.
pub open spec fn repo_line(line: Seq<char>, lineno: nat, default_nest: u32) -> LineOutcome {
    let s = trim(line);
    if s.len() == 0 || s[0] == '#' {
        LineOutcome::Skip
    } else {
        let parts = line_fields(s);
        if parts.len() != 2 && parts.len() != 3 {
            LineOutcome::Fail(field_count_message(lineno, parts.len()))
        } else {
            let nest = if parts.len() == 3 {
                parse_u32(parts[2])
            } else {
                Ok(default_nest)
            };
            match nest {
                Err(k) => LineOutcome::Fail(
                    line_message(lineno, "nest: "@ + int_error_message(k)),
                ),
                Ok(n) => if parts[0].len() == 0 {
                    LineOutcome::Fail(line_message(lineno, "empty id"@))
                } else if parts[1].len() == 0 {
                    LineOutcome::Fail(line_message(lineno, "empty url"@))
                } else {
                    LineOutcome::Entry((parts[0], parts[1], n))
                },
            }
        }
    }
}

/// The entries of lines `from..`, or the message of the first line that
/// fails.
pub open spec fn repo_lines_from(lines: Seq<Seq<char>>, from: int, default_nest: u32) -> Result<
    Seq<(Seq<char>, Seq<char>, u32)>,
    Seq<char>,
>
    decreases lines.len() - from,
{
    if from < 0 || from >= lines.len() {
        Ok(Seq::empty())
    } else {
        match repo_line(lines[from], (from + 1) as nat, default_nest) {
            LineOutcome::Skip => repo_lines_from(lines, from + 1, default_nest),
            LineOutcome::Fail(m) => Err(m),
            LineOutcome::Entry(e) => match repo_lines_from(lines, from + 1, default_nest) {
                Ok(rest) => Ok(seq![e] + rest),
                Err(m) => Err(m),
            },
        }
    }
}

/// The whole of `repos.csv`.
pub open spec fn repos_of_text(text: Seq<char>, default_nest: u32) -> Result<
    Seq<(Seq<char>, Seq<char>, u32)>,
    Seq<char>,
> {
    repo_lines_from(text_lines(text), 0, default_nest)
}

pub open spec fn entry_views(v: Seq<RepoEntry>) -> Seq<(Seq<char>, Seq<char>, u32)> {
    v.map_values(|e: RepoEntry| e@)
}

fn lines_of(text: &str) -> (r: Vec<Vec<char>>)
    ensures
        views(r@) == text_lines(text@),
{
    let cs = chars_of(text);
    let segs = split_chars(&cs, '\n');
    proof {
        lemma_split_on_nonempty(text@, '\n');
    }
    let n = segs.len() - 1;
    let mut out: Vec<Vec<char>> = Vec::new();
    let mut k: usize = 0;
    while k < n
        invariant
            n + 1 == segs@.len(),
            views(segs@) == split_on(text@, '\n'),
            k <= n,
            views(out@) == views(segs@).take(k as int).map_values(|l: Seq<char>| strip_cr(l)),
        decreases n - k,
    {
        let seg = &segs[k];
        let line = if seg.len() > 0 && seg[seg.len() - 1] == '\r' {
            crate::text::sub_chars(seg, 0, seg.len() - 1)
        } else {
            crate::text::sub_chars(seg, 0, seg.len())
        };
        assert(seg@ == views(segs@)[k as int]);
        assert(line@ == strip_cr(seg@));
        let ghost before = views(out@);
        out.push(line);
        assert(views(out@) =~= before.push(line@));
        assert(views(segs@).take(k + 1) == views(segs@).take(k as int).push(seg@));
        assert(views(out@) =~= views(segs@).take(k + 1).map_values(|l: Seq<char>| strip_cr(l)));
        k += 1;
    }
    let ghost segs_v = split_on(text@, '\n');
    assert(views(segs@).take(n as int) =~= segs_v.drop_last());
    let ghost ended = segs_v.drop_last().map_values(|l: Seq<char>| strip_cr(l));
    assert(views(out@) == ended);
    let last = &segs[n];
    assert(last@ == segs_v.last());
    if last.len() > 0 {
        let line = crate::text::sub_chars(last, 0, last.len());
        assert(line@ =~= last@);
        out.push(line);
        assert(views(out@) =~= ended.push(segs_v.last()));
    }
    out
}

fn line_error(lineno: usize, what: &Vec<char>) -> (r: String)
    ensures
        r@ == line_message(lineno as nat, what@),
{
    let mut v: Vec<char> = Vec::new();
    push_str_chars(&mut v, "line ");
    push_decimal(&mut v, lineno as u64);
    push_str_chars(&mut v, ": ");
    push_chars(&mut v, what);
    string_from_chars(&v)
}

fn str_chars_then(a: &str, b: &str) -> (r: Vec<char>)
    ensures
        r@ == a@ + b@,
{
    let mut v: Vec<char> = Vec::new();
    push_str_chars(&mut v, a);
    push_str_chars(&mut v, b);
    v
}

fn int_error_text(k: IntErrorKind) -> (r: &'static str)
    ensures
        r@ == int_error_message(k),
{
    match k {
        IntErrorKind::Empty => "cannot parse integer from empty string",
        IntErrorKind::InvalidDigit => "invalid digit found in string",
        IntErrorKind::PosOverflow => "number too large to fit in target type",
    }
}

/// Reads one line of `repos.csv`; `lineno` is its number from 1.
fn read_repo_line(line: &Vec<char>, lineno: usize, default_nest: u32) -> (r: Result<
    Option<RepoEntry>,
    String,
>)
    ensures
        match repo_line(line@, lineno as nat, default_nest) {
            LineOutcome::Skip => r == Ok::<Option<RepoEntry>, String>(None),
            LineOutcome::Fail(m) => r matches Err(e) && e@ == m,
            LineOutcome::Entry(v) => r matches Ok(Some(e)) && e@ == v,
        },
{
    let s = trim_chars(line);
    if s.len() == 0 || s[0] == '#' {
        return Ok(None);
    }
    let raw_parts = split_chars(&s, ',');
    let mut parts: Vec<Vec<char>> = Vec::new();
    let mut k: usize = 0;
    while k < raw_parts.len()
        invariant
            k <= raw_parts@.len(),
            views(raw_parts@) == split_on(s@, ','),
            views(parts@) == split_on(s@, ',').take(k as int).map_values(|f: Seq<char>| trim(f)),
        decreases raw_parts@.len() - k,
    {
        let t = trim_chars(&raw_parts[k]);
        assert(raw_parts@[k as int]@ == split_on(s@, ',')[k as int]);
        let ghost before = views(parts@);
        parts.push(t);
        assert(views(parts@) =~= before.push(t@));
        assert(split_on(s@, ',').take(k + 1) == split_on(s@, ',').take(k as int).push(
            split_on(s@, ',')[k as int],
        ));
        assert(views(parts@) =~= split_on(s@, ',').take(k + 1).map_values(
            |f: Seq<char>| trim(f),
        ));
        k += 1;
    }
    assert(split_on(s@, ',').take(k as int) == split_on(s@, ','));
    assert(views(parts@) == line_fields(s@));
    if parts.len() != 2 && parts.len() != 3 {
        let mut v: Vec<char> = Vec::new();
        push_str_chars(&mut v, "expected 'id,url[,nest]' (2 or 3 fields), got ");
        push_decimal(&mut v, parts.len() as u64);
        push_str_chars(&mut v, " fields");
        return Err(line_error(lineno, &v));
    }
    assert(parts@[0]@ == line_fields(s@)[0]);
    assert(parts@[1]@ == line_fields(s@)[1]);
    let nest = if parts.len() == 3 {
        assert(parts@[2]@ == line_fields(s@)[2]);
        match parse_u32_chars(&parts[2]) {
            Ok(n) => n,
            Err(kind) => {
                let v = str_chars_then("nest: ", int_error_text(kind));
                return Err(line_error(lineno, &v));
            },
        }
    } else {
        default_nest
    };
    if parts[0].len() == 0 {
        let mut v: Vec<char> = Vec::new();
        push_str_chars(&mut v, "empty id");
        return Err(line_error(lineno, &v));
    }
    if parts[1].len() == 0 {
        let mut v: Vec<char> = Vec::new();
        push_str_chars(&mut v, "empty url");
        return Err(line_error(lineno, &v));
    }
    let id = string_from_chars(&parts[0]);
    let url = string_from_chars(&parts[1]);
    Ok(Some(RepoEntry { id, url, nest }))
}

proof fn lemma_repo_lines_nonempty(lines: Seq<Seq<char>>, from: int, default_nest: u32)
    ensures
        repo_lines_from(lines, from, default_nest) matches Ok(es) ==> forall|i: int|
            0 <= i < es.len() ==> (#[trigger] es[i]).0.len() > 0 && es[i].1.len() > 0,
    decreases lines.len() - from,
{
    if 0 <= from < lines.len() {
        lemma_repo_lines_nonempty(lines, from + 1, default_nest);
    }
}

/// Every repository read from `repos.csv` has a non-empty `id` and a
/// non-empty `url`.
pub proof fn repo_entries_have_id_and_url(text: Seq<char>, default_nest: u32)
    ensures
        repos_of_text(text, default_nest) matches Ok(es) ==> forall|i: int|
            0 <= i < es.len() ==> (#[trigger] es[i]).0.len() > 0 && es[i].1.len() > 0,
{
    lemma_repo_lines_nonempty(text_lines(text), 0, default_nest);
}

/// Reads `repos.csv`: one `id,url[,nest]` line per repository. Blank lines
/// and lines beginning with `#` are skipped; a line with other than 2 or 3
/// fields, an unreadable `nest`, or an empty `id` or `url` fails the whole
/// text with a message naming the line.
pub fn parse_repos_lines(text: &str, default_nest: u32) -> (r: Result<Vec<RepoEntry>, String>)
    ensures
        match repos_of_text(text@, default_nest) {
            Ok(es) => r matches Ok(v) && entry_views(v@) == es,
            Err(m) => r matches Err(e) && e@ == m,
        },
{
    let lines = lines_of(text);
    let ghost ls = text_lines(text@);
    let mut out: Vec<RepoEntry> = Vec::new();
    let mut i: usize = 0;
    while i < lines.len()
        invariant
            i <= lines@.len(),
            views(lines@) == ls,
            ls == text_lines(text@),
            repo_lines_from(ls, 0, default_nest) == match repo_lines_from(ls, i as int, default_nest) {
                Ok(rest) => Ok(entry_views(out@) + rest),
                Err(m) => Err(m),
            },
        decreases lines@.len() - i,
    {
        assert(lines@[i as int]@ == ls[i as int]);
        match read_repo_line(&lines[i], i + 1, default_nest) {
            Err(e) => {
                assert(repo_lines_from(ls, i as int, default_nest) == Err::<
                    Seq<(Seq<char>, Seq<char>, u32)>,
                    Seq<char>,
                >(e@));
                return Err(e);
            },
            Ok(None) => {},
            Ok(Some(entry)) => {
                let ghost before = entry_views(out@);
                out.push(entry);
                assert(entry_views(out@) =~= before.push(entry@));
                assert forall|rest: Seq<(Seq<char>, Seq<char>, u32)>| #![auto]
                    before + (seq![entry@] + rest) == entry_views(out@) + rest by {
                    assert(before + (seq![entry@] + rest) =~= entry_views(out@) + rest);
                }
            },
        }
        i += 1;
    }
    assert(entry_views(out@) + Seq::empty() == entry_views(out@));
    Ok(out)
}

/// Lines of text that ends in `\n` followed by more text are the lines of
/// each part.
proof fn lemma_text_lines_concat(a: Seq<char>, b: Seq<char>)
    requires
        a.len() > 0,
        a.last() == '\n',
    ensures
        text_lines(a + b) == text_lines(a) + text_lines(b),
{
    let a0 = a.drop_last();
    assert(a =~= a0 + seq!['\n']);
    assert(a + b =~= a0 + seq!['\n'] + b);
    lemma_split_on_concat(a0, '\n', b);
    lemma_split_on_concat(a0, '\n', Seq::empty());
    assert(a0 + seq!['\n'] + Seq::<char>::empty() =~= a);
    lemma_split_on_nonempty(b, '\n');
    lemma_split_on_nonempty(a0, '\n');
    let pa = split_on(a0, '\n');
    let pb = split_on(b, '\n');
    let f = |l: Seq<char>| strip_cr(l);
    assert(split_on(a, '\n') == pa + seq![Seq::<char>::empty()]);
    assert((pa + seq![Seq::<char>::empty()]).drop_last() =~= pa);
    assert((pa + pb).drop_last() =~= pa + pb.drop_last());
    assert((pa + pb.drop_last()).map_values(f) =~= pa.map_values(f) + pb.drop_last().map_values(f));
    if pb.last().len() == 0 {
        assert(text_lines(a + b) =~= text_lines(a) + text_lines(b));
    } else {
        assert(text_lines(a + b) =~= text_lines(a) + text_lines(b));
    }
}

/// A line's number matters only to the message of a line that fails.
proof fn lemma_repo_line_number(line: Seq<char>, n: nat, m: nat, default_nest: u32)
    requires
        !(repo_line(line, n, default_nest) is Fail),
    ensures
        repo_line(line, m, default_nest) == repo_line(line, n, default_nest),
{
}

/// Lines read after others give the same entries as when read alone.
proof fn lemma_repo_lines_shift(
    pre: Seq<Seq<char>>,
    lines: Seq<Seq<char>>,
    from: int,
    default_nest: u32,
)
    requires
        0 <= from,
        repo_lines_from(lines, from, default_nest) is Ok,
    ensures
        repo_lines_from(pre + lines, pre.len() + from, default_nest) == repo_lines_from(
            lines,
            from,
            default_nest,
        ),
    decreases lines.len() - from,
{
    if from < lines.len() {
        let all = pre + lines;
        assert(all[pre.len() + from] == lines[from]);
        lemma_repo_line_number(
            lines[from],
            (from + 1) as nat,
            (pre.len() + from + 1) as nat,
            default_nest,
        );
        lemma_repo_lines_shift(pre, lines, from + 1, default_nest);
        assert(pre.len() + from + 1 == pre.len() + (from + 1));
    }
}

/// Entries of the first lines come before those of the lines after them.
proof fn lemma_repo_lines_append(
    first: Seq<Seq<char>>,
    rest: Seq<Seq<char>>,
    from: int,
    default_nest: u32,
)
    requires
        0 <= from <= first.len(),
        repo_lines_from(first, from, default_nest) is Ok,
        repo_lines_from(first + rest, first.len() as int, default_nest) is Ok,
    ensures
        repo_lines_from(first + rest, from, default_nest) == Ok::<
            Seq<(Seq<char>, Seq<char>, u32)>,
            Seq<char>,
        >(
            repo_lines_from(first, from, default_nest)->Ok_0 + repo_lines_from(
                first + rest,
                first.len() as int,
                default_nest,
            )->Ok_0,
        ),
    decreases first.len() - from,
{
    let tail = repo_lines_from(first + rest, first.len() as int, default_nest)->Ok_0;
    if from == first.len() {
        assert(Seq::<(Seq<char>, Seq<char>, u32)>::empty() + tail =~= tail);
    } else {
        let all = first + rest;
        assert(all[from] == first[from]);
        lemma_repo_lines_append(first, rest, from + 1, default_nest);
        let later = repo_lines_from(first, from + 1, default_nest)->Ok_0;
        match repo_line(first[from], (from + 1) as nat, default_nest) {
            LineOutcome::Entry(e) => {
                assert(seq![e] + (later + tail) =~= (seq![e] + later) + tail);
            },
            _ => {},
        }
    }
}

/// A line `id,url` whose fields are non-empty, hold no `,`, have no
/// surrounding whitespace, and whose `id` does not begin with `#`, names
/// repository `id` at `url` with the default depth.
pub proof fn repo_line_reads_id_and_url(id: Seq<char>, url: Seq<char>, lineno: nat, default_nest: u32)
    requires
        id.len() > 0,
        url.len() > 0,
        trim(id) == id,
        trim(url) == url,
        !id.contains(','),
        !url.contains(','),
        id[0] != '#',
    ensures
        repo_line(id + seq![','] + url, lineno, default_nest) == LineOutcome::Entry(
            (id, url, default_nest),
        ),
{
    let x = id + seq![','] + url;
    lemma_trimmed_ends(id);
    lemma_trimmed_ends(url);
    assert(x[0] == id[0]);
    assert(x.last() == url.last());
    assert(trim_start(x) == x);
    assert(trim_end(x) == x);
    assert(trim(x) == x);
    lemma_split_on_concat(id, ',', url);
    lemma_split_on_none(id, ',');
    lemma_split_on_none(url, ',');
    assert(split_on(x, ',') =~= seq![id, url]);
    assert(line_fields(x) =~= seq![id, url]);
}

/// A `repos.csv` text of one such line, ended by a line break, reads as
/// that one repository (as long as neither field holds a line break).
pub proof fn repos_of_single_line(id: Seq<char>, url: Seq<char>, default_nest: u32)
    requires
        id.len() > 0,
        url.len() > 0,
        trim(id) == id,
        trim(url) == url,
        !id.contains(','),
        !url.contains(','),
        !id.contains('\n'),
        !url.contains('\n'),
        id[0] != '#',
    ensures
        repos_of_text(id + seq![','] + url + seq!['\n'], default_nest) == Ok::<
            Seq<(Seq<char>, Seq<char>, u32)>,
            Seq<char>,
        >(seq![(id, url, default_nest)]),
{
    let line = id + seq![','] + url;
    repo_line_reads_id_and_url(id, url, 1, default_nest);
    assert(!line.contains('\n')) by {
        if line.contains('\n') {
            let i = choose|i: int| 0 <= i < line.len() && line[i] == '\n';
            if i < id.len() {
                assert(id[i] == '\n');
            } else if i > id.len() {
                assert(url[i - id.len() - 1] == '\n');
            }
        }
    }
    lemma_split_on_none(line, '\n');
    lemma_split_on_concat(line, '\n', Seq::empty());
    assert(line + seq!['\n'] + Seq::<char>::empty() =~= line + seq!['\n']);
    lemma_trimmed_ends(url);
    assert(line.last() == url.last());
    assert(strip_cr(line) == line);
    let segs = split_on(line + seq!['\n'], '\n');
    assert(segs =~= seq![line, Seq::<char>::empty()]);
    assert(segs.drop_last() =~= seq![line]);
    assert(text_lines(line + seq!['\n']) =~= seq![line]);
    assert(repo_lines_from(seq![line], 1, default_nest) == Ok::<
        Seq<(Seq<char>, Seq<char>, u32)>,
        Seq<char>,
    >(Seq::empty()));
    assert(seq![(id, url, default_nest)] + Seq::<(Seq<char>, Seq<char>, u32)>::empty() =~= seq![
        (id, url, default_nest),
    ]);
}

/// Two readable `repos.csv` texts, the first empty or ending in a line
/// break, read as one give the entries of the first and then those of the
/// second.
pub proof fn repos_of_concat(a: Seq<char>, b: Seq<char>, default_nest: u32)
    requires
        a.len() == 0 || a.last() == '\n',
        repos_of_text(a, default_nest) is Ok,
        repos_of_text(b, default_nest) is Ok,
    ensures
        repos_of_text(a + b, default_nest) == Ok::<Seq<(Seq<char>, Seq<char>, u32)>, Seq<char>>(
            repos_of_text(a, default_nest)->Ok_0 + repos_of_text(b, default_nest)->Ok_0,
        ),
{
    if a.len() == 0 {
        assert(a + b =~= b);
        assert(Seq::<(Seq<char>, Seq<char>, u32)>::empty() + repos_of_text(b, default_nest)->Ok_0
            =~= repos_of_text(b, default_nest)->Ok_0);
        assert(text_lines(a) =~= Seq::<Seq<char>>::empty());
    } else {
        lemma_text_lines_concat(a, b);
        let la = text_lines(a);
        let lb = text_lines(b);
        lemma_repo_lines_shift(la, lb, 0, default_nest);
        lemma_repo_lines_append(la, lb, 0, default_nest);
    }
}


/// The path part that `url_to_path` extracts once `url` (trimmed) is known
/// to begin with `base`: leading `/`s removed, then trailing `/`s, then
/// trailing `.git`s, then trailing `/`s again.
pub open spec fn clean_repo_path(stripped: Seq<char>) -> Seq<char> {
    trim_end_matches(
        trim_end_matches(
            trim_end_matches(trim_start_matches(stripped, seq!['/']), seq!['/']),
            ".git"@,
        ),
        seq!['/'],
    )
}

/// The GitLab URL with whitespace and trailing `/`s removed.
pub open spec fn url_base(gitlab_url: Seq<char>) -> Seq<char> {
    trim_end_matches(trim(gitlab_url), seq!['/'])
}

/// What `url_to_path` returns for a project URL and the GitLab URL.
pub open spec fn url_to_path_spec(url: Seq<char>, gitlab_url: Seq<char>) -> Result<
    Seq<char>,
    Seq<char>,
> {
    let u = trim(url);
    let base = url_base(gitlab_url);
    if !has_prefix(u, base) {
        Err(
            "url "@ + str_debug(u) + " does not start with gitlab url "@ + str_debug(base),
        )
    } else {
        let cleaned = clean_repo_path(u.subrange(base.len() as int, u.len() as int));
        if cleaned.len() == 0 {
            Err("url "@ + str_debug(u) + " extracted to empty path"@)
        } else {
            Ok(cleaned)
        }
    }
}

/// `https://gitlab.com/group/repo[.git][/]` with GitLab URL
/// `https://gitlab.com` gives `group/repo`: the GitLab URL is stripped as a
/// prefix, then surrounding `/`s and trailing `.git` are dropped.
pub fn url_to_path(url: &str, gitlab_url: &str) -> (r: Result<String, String>)
    ensures
        match url_to_path_spec(url@, gitlab_url@) {
            Ok(p) => r matches Ok(s) && s@ == p,
            Err(m) => r matches Err(e) && e@ == m,
        },
{
    let u = trim_chars(&chars_of(url));
    let slash = vec!['/'];
    let base = trim_end_matches_chars(&trim_chars(&chars_of(gitlab_url)), &slash);
    assert(slash@ == seq!['/']);
    if !matches_at(&u, 0, &base) {
        assert(u@.skip(0) == u@);
        let us = string_from_chars(&u);
        let bs = string_from_chars(&base);
        let mut v: Vec<char> = Vec::new();
        push_str_chars(&mut v, "url ");
        push_str_chars(&mut v, debug_quoted(us.as_str()).as_str());
        push_str_chars(&mut v, " does not start with gitlab url ");
        push_str_chars(&mut v, debug_quoted(bs.as_str()).as_str());
        return Err(string_from_chars(&v));
    }
    assert(u@.skip(0) == u@);
    let stripped = sub_chars(&u, base.len(), u.len());
    let a = trim_start_matches_chars(&stripped, &slash);
    let b = trim_end_matches_chars(&a, &slash);
    let git = chars_of(".git");
    let c = trim_end_matches_chars(&b, &git);
    let cleaned = trim_end_matches_chars(&c, &slash);
    if cleaned.len() == 0 {
        let us = string_from_chars(&u);
        let mut v: Vec<char> = Vec::new();
        push_str_chars(&mut v, "url ");
        push_str_chars(&mut v, debug_quoted(us.as_str()).as_str());
        push_str_chars(&mut v, " extracted to empty path");
        return Err(string_from_chars(&v));
    }
    Ok(string_from_chars(&cleaned))
}


/// What `std::path::Path::parent` gives for a path written as `path`: the
/// path without its last component, or `None` for a root or an empty path.
pub uninterp spec fn path_parent(path: Seq<char>) -> Option<Seq<char>>;

pub open spec fn opt_chars(o: Option<String>) -> Option<Seq<char>> {
    match o {
        Some(s) => Some(s@),
        None => None,
    }
}

/// `Path::new(path).parent()`, as text. The result is named by
/// `path_parent`; how `std` splits components (repeated `/`, `.`) is not
/// written out here.
#[verifier::external_body]
fn parent_of(path: &str) -> (r: Option<String>)
    ensures
        opt_chars(r) == path_parent(path@),
{
    std::path::Path::new(path).parent().and_then(std::path::Path::to_str).map(str::to_string)
}

/// What `std::path::Path::is_absolute` says of a path written as `path`.
/// On Unix a path is absolute when it begins with `/`; the rules of other
/// platforms (drive prefixes, `\\`) are not written out here.
pub uninterp spec fn path_is_absolute(path: Seq<char>) -> bool;

/// `Path::new(path).is_absolute()`. The result is named by
/// `path_is_absolute`.
#[verifier::external_body]
fn is_absolute_path(path: &str) -> (r: bool)
    ensures
        r == path_is_absolute(path@),
{
    std::path::Path::new(path).is_absolute()
}

/// What `Path::new(base).join(p)` gives, as text. On Unix an absolute `p`
/// replaces `base`, and otherwise `p` is appended with a `/` in between
/// when `base` is non-empty and does not end in one; how other platforms
/// join (prefixes, `\\`) is not written out here.
pub uninterp spec fn path_joined(base: Seq<char>, p: Seq<char>) -> Seq<char>;

/// `Path::new(base).join(p)`, as text. The result is named by
/// `path_joined`; as `PathBuf::push` documents, an absolute `p` replaces
/// `base`. Both arguments are UTF-8, so the joined path is too and the
/// conversion back to text loses nothing.
#[verifier::external_body]
pub(crate) fn join_path(base: &str, p: &str) -> (r: String)
    ensures
        r@ == path_joined(base@, p@),
        path_is_absolute(p@) ==> r@ == p@,
{
    std::path::Path::new(base).join(p).to_string_lossy().into_owned()
}

/// The directory in which a relative path is resolved: the parent of the
/// configuration file, or `.` when it has none.
pub open spec fn base_dir(parent: Option<Seq<char>>) -> Seq<char> {
    match parent {
        Some(p) => p,
        None => "."@,
    }
}

/// Joins `value` onto the directory `parent` (the configuration file's
/// parent, `None` when it has none, which stands for `.`), as `Path::join`
/// does on this platform.
pub fn join_relative(parent: &Option<String>, value: &str) -> (r: String)
    ensures
        r@ == path_joined(base_dir(opt_chars(*parent)), value@),
{
    match parent {
        Some(p) => join_path(p.as_str(), value),
        None => join_path(".", value),
    }
}

/// Resolves `value` against the directory of `config_path`, by the path
/// rules of this platform (`Path::is_absolute`, `Path::parent`,
/// `Path::join`); an absolute `value` is returned as it is.
pub fn resolve_relative(config_path: &str, value: &str) -> (r: String)
    ensures
        path_is_absolute(value@) ==> r@ == value@,
        !path_is_absolute(value@) ==> r@ == path_joined(base_dir(path_parent(config_path@)), value@),
{
    if is_absolute_path(value) {
        return string_from_chars(&chars_of(value));
    }
    let parent = parent_of(config_path);
    join_relative(&parent, value)
}


/// A path extracted from a URL is never empty and neither begins nor ends
/// with `/`.
pub proof fn url_path_shape(url: Seq<char>, gitlab_url: Seq<char>)
    ensures
        url_to_path_spec(url, gitlab_url) matches Ok(p) ==> p.len() > 0 && p[0] != '/' && p.last()
            != '/',
{
    let u = trim(url);
    let base = url_base(gitlab_url);
    if has_prefix(u, base) {
        let stripped = u.subrange(base.len() as int, u.len() as int);
        let a = trim_start_matches(stripped, seq!['/']);
        let b = trim_end_matches(a, seq!['/']);
        let c = trim_end_matches(b, ".git"@);
        let d = trim_end_matches(c, seq!['/']);
        lemma_trim_start_char(stripped, '/');
        lemma_trim_end_matches_prefix(a, seq!['/']);
        lemma_trim_end_matches_prefix(b, ".git"@);
        lemma_trim_end_matches_prefix(c, seq!['/']);
        lemma_trim_end_char(c, '/');
        if d.len() > 0 {
            assert(d[0] == c[0]);
            assert(c[0] == b[0]);
            assert(b[0] == a[0]);
        }
    }
}

/// Removing trailing copies of `p` from `s` followed by `p` is removing them
/// from `s`.
proof fn lemma_trim_end_matches_append(s: Seq<char>, p: Seq<char>)
    requires
        p.len() > 0,
    ensures
        trim_end_matches(s + p, p) == trim_end_matches(s, p),
{
    let x = s + p;
    assert(x.subrange(x.len() - p.len(), x.len() as int) =~= p);
    assert(x.subrange(0, x.len() - p.len()) =~= s);
}

/// Joining a project path onto the GitLab URL, with or without a trailing
/// `/`, `.git` or `.git/`, and extracting it again with that GitLab URL,
/// written with or without a trailing `/`, gives the path back. This holds
/// for a GitLab URL without surrounding whitespace or trailing `/`, and a
/// path that is non-empty, neither begins nor ends with `/`, does not end
/// with `.git` and has no trailing whitespace.
pub proof fn url_to_path_inverts_join(
    base: Seq<char>,
    p: Seq<char>,
    suffix: Seq<char>,
    gitlab_url: Seq<char>,
)
    requires
        trim(base) == base,
        !has_suffix(base, seq!['/']),
        gitlab_url == base || gitlab_url == base + seq!['/'],
        p.len() > 0,
        p[0] != '/',
        p.last() != '/',
        !is_ws(p.last()),
        !has_suffix(p, ".git"@),
        suffix == Seq::<char>::empty() || suffix == seq!['/'] || suffix == ".git"@ || suffix
            == ".git"@ + seq!['/'],
    ensures
        url_to_path_spec(base + seq!['/'] + p + suffix, gitlab_url) == Ok::<Seq<char>, Seq<char>>(
            p,
        ),
{
    reveal_strlit(".git");
    let git = ".git"@;
    let t = p + suffix;
    let x = base + seq!['/'] + t;
    assert(base + seq!['/'] + p + suffix =~= x);
    if base.len() > 0 {
        lemma_trimmed_ends(base);
        assert(x[0] == base[0]);
    } else {
        assert(x[0] == '/');
    }
    assert(trim_start(x) == x);
    if suffix.len() == 0 {
        assert(t =~= p);
        assert(x.last() == p.last());
    } else {
        assert(x.last() == suffix.last());
    }
    assert(trim_end(x) == x);
    assert(trim(x) == x);
    // the GitLab URL, however written, comes down to `base`
    assert(trim_end_matches(base, seq!['/']) == base);
    if gitlab_url != base {
        let g = base + seq!['/'];
        if base.len() > 0 {
            lemma_trimmed_ends(base);
            assert(g[0] == base[0]);
        }
        assert(trim_start(g) == g);
        assert(trim_end(g) == g);
        lemma_trim_end_matches_append(base, seq!['/']);
    }
    assert(url_base(gitlab_url) == base);
    assert(x.subrange(0, base.len() as int) =~= base);
    let stripped = x.subrange(base.len() as int, x.len() as int);
    assert(stripped =~= seq!['/'] + t);
    assert(has_prefix(stripped, seq!['/'])) by {
        assert(stripped.subrange(0, 1) =~= seq!['/']);
    }
    assert(stripped.subrange(1, stripped.len() as int) =~= t);
    assert(t[0] == p[0]);
    assert(!has_prefix(t, seq!['/'])) by {
        if has_prefix(t, seq!['/']) {
            assert(t.subrange(0, 1)[0] == t[0]);
        }
    }
    assert(trim_start_matches(t, seq!['/']) == t);
    assert(trim_start_matches(stripped, seq!['/']) == t);
    assert(!has_suffix(p, seq!['/'])) by {
        if has_suffix(p, seq!['/']) {
            assert(p.subrange(p.len() - 1, p.len() as int)[0] == p.last());
        }
    }
    assert(trim_end_matches(p, seq!['/']) == p);
    assert(trim_end_matches(p, git) == p);
    let pg = p + git;
    assert(!has_suffix(pg, seq!['/'])) by {
        if has_suffix(pg, seq!['/']) {
            assert(pg.subrange(pg.len() - 1, pg.len() as int)[0] == pg.last());
        }
    }
    assert(trim_end_matches(pg, seq!['/']) == pg);
    lemma_trim_end_matches_append(p, git);
    if suffix == seq!['/'] {
        lemma_trim_end_matches_append(p, seq!['/']);
    } else if suffix == git + seq!['/'] {
        assert(t =~= pg + seq!['/']);
        lemma_trim_end_matches_append(pg, seq!['/']);
    } else if suffix.len() == 0 {
        assert(t =~= p);
    }
    assert(clean_repo_path(stripped) == p);
}

} // verus!
