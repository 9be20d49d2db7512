//! The root crontab as the panel edits it: entries with an optional comment
//! line above them, environment lines kept as they are.
use vstd::prelude::*;
use vstd::utf8::{encode_utf8, is_ascii_chars, is_ascii_chars_encode_utf8};
use crate::text::{
    after_words, after_words_index, lemma_after_words_field, lemma_after_words_space, lemma_after_words_suffix,
    chars_of, count_ws, has_char, is_trimmed, is_whitespace, is_ws, joined,
    lemma_count_ws_append, lemma_joined_append, lemma_lines_joined,
    lemma_trim_commute, lemma_trim_end_append, lemma_trim_end_fixed, lemma_trim_end_idem, lemma_trim_start_fixed,
    lemma_trim_strip_cr, lemma_words_append, lemma_words_single, lemma_lines_no_newline, lemma_trim_is_trimmed,
    lemma_words_wf, lemma_first_word_start, lemma_trim_start_suffix, lines, lines_of, push_chars, push_str, slice_chars,
    strip_cr, string_of, string_views, trim, trim_chars, trim_end, trim_start, trim_start_chars, views, words,
    words_of,
};

verus! {

/// One scheduled task, one crontab line.
pub struct CronEntry {
    pub minute: String,
    pub hour: String,
    pub day: String,
    pub month: String,
    pub weekday: String,
    pub command: String,
    /// Comment shown above the task (may be empty).
    pub comment: String,
}

/// What a crontab entry holds, as character sequences.
pub ghost struct EntryView {
    pub minute: Seq<char>,
    pub hour: Seq<char>,
    pub day: Seq<char>,
    pub month: Seq<char>,
    pub weekday: Seq<char>,
    pub command: Seq<char>,
    pub comment: Seq<char>,
}

impl View for CronEntry {
    type V = EntryView;

    open spec fn view(&self) -> EntryView {
        EntryView {
            minute: self.minute@,
            hour: self.hour@,
            day: self.day@,
            month: self.month@,
            weekday: self.weekday@,
            command: self.command@,
            comment: self.comment@,
        }
    }
}


/// Parsed crontab: the entries, and the environment lines kept verbatim.
pub struct CronData {
    pub entries: Vec<CronEntry>,
    pub env_lines: Vec<String>,
}

/// The time fields of an entry.
#[derive(Clone, Copy, PartialEq, Eq, Debug, Structural)]
pub enum TimeField {
    Minute,
    Hour,
    Day,
    Month,
    Weekday,
}

/// Why a crontab change was refused.
#[derive(Clone, Copy, PartialEq, Eq, Debug, Structural)]
pub enum CronError {
    /// A time field is empty, longer than 32 characters or holds something
    /// other than digits and `* / , - ?`.
    InvalidField(TimeField),
    /// The command is blank or spans several lines.
    BadCommand,
    /// The comment spans several lines.
    BadComment,
    /// No entry has the given index.
    NoSuchEntry,
}

/// A character allowed in a time field.
pub open spec fn field_char(c: char) -> bool {
    ('0' <= c <= '9') || c == '*' || c == '/' || c == ',' || c == '-' || c == '?'
}

/// A valid time field: 1 to 32 characters, each a digit or one of `* / , - ?`.
pub open spec fn valid_field_spec(f: Seq<char>) -> bool {
    0 < f.len() <= 32 && forall|i: int| 0 <= i < f.len() ==> field_char(#[trigger] f[i])
}

/// Whether `f` is a valid time field.
pub fn valid_field(f: &str) -> (b: bool)
    ensures
        b == valid_field_spec(f@),
{
    let v = chars_of(f);
    let mut i: usize = 0;
    while i < v.len()
        invariant
            i <= v@.len(),
            v@ == f@,
            forall|j: int| 0 <= j < i ==> field_char(#[trigger] v@[j]),
        decreases v@.len() - i,
    {
        let c = v[i];
        if !(('0' <= c && c <= '9') || c == '*' || c == '/' || c == ',' || c == '-' || c == '?') {
            return false;
        }
        i = i + 1;
    }
    proof {
        assert(is_ascii_chars(f@));
        is_ascii_chars_encode_utf8(f@);
    }
    let n = f.as_bytes().len();
    n > 0 && n <= 32
}

/// The first check that `validate` fails, if any.
pub open spec fn validation(e: EntryView) -> Option<CronError> {
    if !valid_field_spec(e.minute) {
        Some(CronError::InvalidField(TimeField::Minute))
    } else if !valid_field_spec(e.hour) {
        Some(CronError::InvalidField(TimeField::Hour))
    } else if !valid_field_spec(e.day) {
        Some(CronError::InvalidField(TimeField::Day))
    } else if !valid_field_spec(e.month) {
        Some(CronError::InvalidField(TimeField::Month))
    } else if !valid_field_spec(e.weekday) {
        Some(CronError::InvalidField(TimeField::Weekday))
    } else if trim(e.command).len() == 0 || e.command.contains('\n') {
        Some(CronError::BadCommand)
    } else if e.comment.contains('\n') {
        Some(CronError::BadComment)
    } else {
        None
    }
}

/// `prefix` + `f` + `' '`.
pub open spec fn with_field(prefix: Seq<char>, f: Seq<char>) -> Seq<char> {
    prefix + f + seq![' ']
}

/// The crontab line of an entry: the five fields and the command, space
/// separated.
pub open spec fn line_of(e: EntryView) -> Seq<char> {
    with_field(with_field(with_field(with_field(with_field(Seq::empty(), e.minute), e.hour), e.day), e.month), e.weekday)
        + e.command
}

/// The text written for one entry: `# comment` when there is one, then its line.
pub open spec fn entry_text(e: EntryView) -> Seq<char> {
    (if e.comment.len() > 0 {
        seq!['#', ' '] + e.comment + seq!['\n']
    } else {
        Seq::empty()
    }) + line_of(e) + seq!['\n']
}

pub open spec fn env_text(env: Seq<Seq<char>>) -> Seq<char>
    decreases env.len(),
{
    if env.len() == 0 {
        Seq::empty()
    } else {
        env_text(env.drop_last()) + env.last() + seq!['\n']
    }
}

pub open spec fn entries_text(es: Seq<EntryView>) -> Seq<char>
    decreases es.len(),
{
    if es.len() == 0 {
        Seq::empty()
    } else {
        entries_text(es.drop_last()) + entry_text(es.last())
    }
}

/// The crontab text for environment lines `env` and entries `es`.
pub open spec fn crontab_text(es: Seq<EntryView>, env: Seq<Seq<char>>) -> Seq<char> {
    env_text(env) + entries_text(es)
}

/// State of the line-by-line reading of a crontab.
pub ghost struct Reading {
    pub entries: Seq<EntryView>,
    pub env: Seq<Seq<char>>,
    /// Comment waiting for the entry right below it.
    pub pending: Seq<char>,
}

/// `t` sets an environment variable: `KEY=VALUE` without spaces.
pub open spec fn is_env_line(t: Seq<char>) -> bool {
    t.contains('=') && !t.contains(' ')
}

/// Reading one more line: blank lines are skipped, a `#` line becomes the
/// pending comment, an environment line is kept (and drops the pending
/// comment), a line of five or more words is an entry taking the pending
/// comment (its five fields are its first five words, its command what
/// follows them, leading whitespace removed), anything else drops the
/// pending comment.
pub open spec fn read_line(st: Reading, line: Seq<char>) -> Reading {
    let t = trim(line);
    if t.len() == 0 {
        st
    } else if t[0] == '#' {
        Reading { pending: trim(t.drop_first()), ..st }
    } else if is_env_line(t) {
        Reading { env: st.env.push(t), pending: Seq::empty(), ..st }
    } else if words(t).len() < 5 {
        Reading { pending: Seq::empty(), ..st }
    } else {
        let w = words(t);
        let command = trim_start(after_words(t, 5));
        let e = EntryView {
            minute: w[0],
            hour: w[1],
            day: w[2],
            month: w[3],
            weekday: w[4],
            command: command,
            comment: st.pending,
        };
        Reading { entries: st.entries.push(e), pending: Seq::empty(), ..st }
    }
}

/// Reading the lines `ls` in order from the empty state.
pub open spec fn read_lines(ls: Seq<Seq<char>>) -> Reading
    decreases ls.len(),
{
    if ls.len() == 0 {
        Reading { entries: Seq::empty(), env: Seq::empty(), pending: Seq::empty() }
    } else {
        read_line(read_lines(ls.drop_last()), ls.last())
    }
}

/// The reading of a whole crontab text.
pub open spec fn read_crontab(text: Seq<char>) -> Reading {
    read_lines(lines(text))
}

pub open spec fn entry_views(es: Seq<CronEntry>) -> Seq<EntryView> {
    es.map_values(|e: CronEntry| e@)
}


impl CronEntry {
    /// Checks the entry before it is written: valid time fields, a non-blank
    /// single-line command, a single-line comment.
    pub fn validate(&self) -> (r: Result<(), CronError>)
        ensures
            r matches Err(e) ==> validation(self@) == Some(e),
            r is Ok ==> validation(self@) is None,
    {
        if !valid_field(self.minute.as_str()) {
            return Err(CronError::InvalidField(TimeField::Minute));
        }
        if !valid_field(self.hour.as_str()) {
            return Err(CronError::InvalidField(TimeField::Hour));
        }
        if !valid_field(self.day.as_str()) {
            return Err(CronError::InvalidField(TimeField::Day));
        }
        if !valid_field(self.month.as_str()) {
            return Err(CronError::InvalidField(TimeField::Month));
        }
        if !valid_field(self.weekday.as_str()) {
            return Err(CronError::InvalidField(TimeField::Weekday));
        }
        let cmd = chars_of(self.command.as_str());
        let tc = trim_chars(&cmd);
        if tc.len() == 0 || has_char(&cmd, '\n') {
            return Err(CronError::BadCommand);
        }
        let cm = chars_of(self.comment.as_str());
        if has_char(&cm, '\n') {
            return Err(CronError::BadComment);
        }
        Ok(())
    }

    /// The crontab line of this entry.
    pub fn to_line(&self) -> (s: String)
        ensures
            s@ == line_of(self@),
    {
        let mut v: Vec<char> = Vec::new();
        push_str(&mut v, self.minute.as_str());
        v.push(' ');
        push_str(&mut v, self.hour.as_str());
        v.push(' ');
        push_str(&mut v, self.day.as_str());
        v.push(' ');
        push_str(&mut v, self.month.as_str());
        v.push(' ');
        push_str(&mut v, self.weekday.as_str());
        v.push(' ');
        push_str(&mut v, self.command.as_str());
        assert(v@ =~= line_of(self@));
        string_of(&v)
    }

    fn duplicate(&self) -> (c: CronEntry)
        ensures
            c@ == self@,
    {
        CronEntry {
            minute: self.minute.clone(),
            hour: self.hour.clone(),
            day: self.day.clone(),
            month: self.month.clone(),
            weekday: self.weekday.clone(),
            command: self.command.clone(),
            comment: self.comment.clone(),
        }
    }
}


/// Reads a crontab text into its entries and environment lines.
pub fn parse(text: &str) -> (d: CronData)
    ensures
        entry_views(d.entries@) == read_crontab(text@).entries,
        string_views(d.env_lines@) == read_crontab(text@).env,
{
    let cv = chars_of(text);
    let ls = lines_of(&cv);
    let ghost all = views(ls@);
    let mut entries: Vec<CronEntry> = Vec::new();
    let mut env: Vec<String> = Vec::new();
    let mut pending: Vec<char> = Vec::new();
    let mut i: usize = 0;
    assert(all.take(0) =~= Seq::<Seq<char>>::empty());
    assert(entry_views(entries@) =~= Seq::<EntryView>::empty());
    assert(string_views(env@) =~= Seq::<Seq<char>>::empty());
    while i < ls.len()
        invariant
            i <= ls@.len(),
            all == views(ls@),
            all == lines(text@),
            entry_views(entries@) == read_lines(all.take(i as int)).entries,
            string_views(env@) == read_lines(all.take(i as int)).env,
            pending@ == read_lines(all.take(i as int)).pending,
        decreases ls@.len() - i,
    {
        let ghost st = read_lines(all.take(i as int));
        assert(all.take(i + 1).drop_last() =~= all.take(i as int));
        assert(all.take(i + 1).last() == ls@[i as int]@);
        let t = trim_chars(&ls[i]);
        if t.len() == 0 {
        } else if t[0] == '#' {
            let rest = slice_chars(&t, 1, t.len());
            assert(rest@ =~= t@.drop_first());
            pending = trim_chars(&rest);
        } else if has_char(&t, '=') && !has_char(&t, ' ') {
            let line = string_of(&t);
            env.push(line);
            assert(string_views(env@) =~= st.env.push(t@));
            pending = Vec::new();
        } else {
            let w = words_of(&t);
            if w.len() < 5 {
                pending = Vec::new();
            } else {
                let k = after_words_index(&t, 5);
                let r = slice_chars(&t, k, t.len());
                assert(r@ =~= t@.skip(k as int));
                let command = trim_start_chars(&r);
                let e = CronEntry {
                    minute: string_of(&w[0]),
                    hour: string_of(&w[1]),
                    day: string_of(&w[2]),
                    month: string_of(&w[3]),
                    weekday: string_of(&w[4]),
                    command: string_of(&command),
                    comment: string_of(&pending),
                };
                entries.push(e);
                assert(entry_views(entries@) =~= read_lines(all.take(i + 1)).entries);
                pending = Vec::new();
            }
        }
        i = i + 1;
    }
    assert(all.take(ls@.len() as int) =~= all);
    CronData { entries, env_lines: env }
}

/// Writes entries and environment lines back as crontab text: environment
/// lines first, then each entry under its comment line.
pub fn serialize(data: &CronData) -> (s: String)
    ensures
        s@ == crontab_text(entry_views(data.entries@), string_views(data.env_lines@)),
{
    let mut v: Vec<char> = Vec::new();
    let mut i: usize = 0;
    while i < data.env_lines.len()
        invariant
            i <= data.env_lines@.len(),
            v@ == env_text(string_views(data.env_lines@).take(i as int)),
        decreases data.env_lines@.len() - i,
    {
        assert(string_views(data.env_lines@).take(i + 1).drop_last() =~= string_views(data.env_lines@).take(i as int));
        push_str(&mut v, data.env_lines[i].as_str());
        v.push('\n');
        i = i + 1;
    }
    assert(string_views(data.env_lines@).take(data.env_lines@.len() as int) =~= string_views(data.env_lines@));
    let ghost head = v@;
    let mut j: usize = 0;
    while j < data.entries.len()
        invariant
            j <= data.entries@.len(),
            v@ == head + entries_text(entry_views(data.entries@).take(j as int)),
        decreases data.entries@.len() - j,
    {
        let ghost es = entry_views(data.entries@);
        assert(es.take(j + 1).drop_last() =~= es.take(j as int));
        let e = &data.entries[j];
        let ghost before = v@;
        if !e.comment.as_str().is_empty() {
            v.push('#');
            v.push(' ');
            push_str(&mut v, e.comment.as_str());
            v.push('\n');
        }
        let line = e.to_line();
        push_str(&mut v, line.as_str());
        v.push('\n');
        assert(v@ =~= before + entry_text(e@));
        j = j + 1;
    }
    assert(entry_views(data.entries@).take(data.entries@.len() as int) =~= entry_views(data.entries@));
    string_of(&v)
}


/// The crontab text after adding `entry` to the crontab `raw`.
pub fn apply_add(raw: &str, entry: &CronEntry) -> (r: Result<String, CronError>)
    ensures
        validation(entry@) matches Some(e) ==> r == Err::<String, CronError>(e),
        validation(entry@) is None ==> (r matches Ok(t) && t@ == crontab_text(
            read_crontab(raw@).entries.push(entry@),
            read_crontab(raw@).env,
        )),
{
    match entry.validate() {
        Err(e) => return Err(e),
        Ok(()) => {},
    }
    let mut data = parse(raw);
    data.entries.push(entry.duplicate());
    assert(entry_views(data.entries@) =~= read_crontab(raw@).entries.push(entry@));
    Ok(serialize(&data))
}

/// The crontab text after replacing entry `index` of `raw` by `entry`.
pub fn apply_update(raw: &str, index: usize, entry: &CronEntry) -> (r: Result<String, CronError>)
    ensures
        validation(entry@) matches Some(e) ==> r == Err::<String, CronError>(e),
        validation(entry@) is None && index >= read_crontab(raw@).entries.len() ==> r
            == Err::<String, CronError>(CronError::NoSuchEntry),
        validation(entry@) is None && index < read_crontab(raw@).entries.len() ==> (r matches Ok(t)
            && t@ == crontab_text(
            read_crontab(raw@).entries.update(index as int, entry@),
            read_crontab(raw@).env,
        )),
{
    match entry.validate() {
        Err(e) => return Err(e),
        Ok(()) => {},
    }
    let mut data = parse(raw);
    if index >= data.entries.len() {
        return Err(CronError::NoSuchEntry);
    }
    data.entries.set(index, entry.duplicate());
    assert(entry_views(data.entries@) =~= read_crontab(raw@).entries.update(index as int, entry@));
    Ok(serialize(&data))
}

/// The crontab text after removing entry `index` of `raw`.
pub fn apply_delete(raw: &str, index: usize) -> (r: Result<String, CronError>)
    ensures
        index >= read_crontab(raw@).entries.len() ==> r == Err::<String, CronError>(CronError::NoSuchEntry),
        index < read_crontab(raw@).entries.len() ==> (r matches Ok(t) && t@ == crontab_text(
            read_crontab(raw@).entries.remove(index as int),
            read_crontab(raw@).env,
        )),
{
    let mut data = parse(raw);
    if index >= data.entries.len() {
        return Err(CronError::NoSuchEntry);
    }
    data.entries.remove(index);
    assert(entry_views(data.entries@) =~= read_crontab(raw@).entries.remove(index as int));
    Ok(serialize(&data))
}

/// An environment line that reads back as itself: one trimmed line
/// `KEY=VALUE` without spaces, not a comment.
pub open spec fn wf_env_line(t: Seq<char>) -> bool {
    &&& t.len() > 0
    &&& is_trimmed(t)
    &&& !t.contains('\n')
    &&& t[0] != '#'
    &&& is_env_line(t)
}

/// A field that reads back as itself: non-empty, without whitespace.
pub open spec fn wf_field(f: Seq<char>) -> bool {
    f.len() > 0 && forall|i: int| 0 <= i < f.len() ==> !is_ws(#[trigger] f[i])
}

/// An entry that reads back: fields without whitespace, a first field
/// that does not start a comment, single-line command and comment.
/// (Every entry that passes `validate`, and every entry `parse` returns,
/// is one.)
pub open spec fn wf_entry(e: EntryView) -> bool {
    &&& wf_field(e.minute)
    &&& wf_field(e.hour)
    &&& wf_field(e.day)
    &&& wf_field(e.month)
    &&& wf_field(e.weekday)
    &&& e.minute[0] != '#'
    &&& !e.command.contains('\n')
    &&& !e.comment.contains('\n')
}

/// An entry as it reads back: command and comment trimmed.
pub open spec fn normalized(e: EntryView) -> EntryView {
    EntryView { command: trim(e.command), comment: trim(e.comment), ..e }
}

pub open spec fn normalized_all(es: Seq<EntryView>) -> Seq<EntryView> {
    es.map_values(|e: EntryView| normalized(e))
}

/// The lines written for one entry: its comment line when it has a
/// comment, then its line.
pub open spec fn entry_rows(e: EntryView) -> Seq<Seq<char>> {
    (if e.comment.len() > 0 {
        seq![seq!['#', ' '] + e.comment]
    } else {
        Seq::empty()
    }).push(line_of(e))
}

pub open spec fn all_entry_rows(es: Seq<EntryView>) -> Seq<Seq<char>>
    decreases es.len(),
{
    if es.len() == 0 {
        Seq::empty()
    } else {
        all_entry_rows(es.drop_last()) + entry_rows(es.last())
    }
}

/// Reading the lines `ls` in order from state `st`.
pub open spec fn read_from(st: Reading, ls: Seq<Seq<char>>) -> Reading
    decreases ls.len(),
{
    if ls.len() == 0 {
        st
    } else {
        read_line(read_from(st, ls.drop_last()), ls.last())
    }
}

pub open spec fn start_reading() -> Reading {
    Reading { entries: Seq::empty(), env: Seq::empty(), pending: Seq::empty() }
}

proof fn lemma_read_lines_from(ls: Seq<Seq<char>>)
    ensures
        read_lines(ls) == read_from(start_reading(), ls),
    decreases ls.len(),
{
    if ls.len() > 0 {
        lemma_read_lines_from(ls.drop_last());
    }
}

proof fn lemma_read_from_append(st: Reading, a: Seq<Seq<char>>, b: Seq<Seq<char>>)
    ensures
        read_from(st, a + b) == read_from(read_from(st, a), b),
    decreases b.len(),
{
    if b.len() == 0 {
        assert(a + b =~= a);
    } else {
        assert((a + b).drop_last() =~= a + b.drop_last());
        assert((a + b).last() == b.last());
        lemma_read_from_append(st, a, b.drop_last());
    }
}

proof fn lemma_read_from_strip_cr(st: Reading, ls: Seq<Seq<char>>)
    ensures
        read_from(st, ls.map_values(|r: Seq<char>| strip_cr(r))) == read_from(st, ls),
    decreases ls.len(),
{
    if ls.len() > 0 {
        let m = ls.map_values(|r: Seq<char>| strip_cr(r));
        assert(m.drop_last() =~= ls.drop_last().map_values(|r: Seq<char>| strip_cr(r)));
        lemma_read_from_strip_cr(st, ls.drop_last());
        lemma_trim_strip_cr(ls.last());
    }
}

proof fn lemma_env_text(env: Seq<Seq<char>>)
    ensures
        env_text(env) == joined(env),
    decreases env.len(),
{
    if env.len() > 0 {
        lemma_env_text(env.drop_last());
    }
}

proof fn lemma_entries_text(es: Seq<EntryView>)
    ensures
        entries_text(es) == joined(all_entry_rows(es)),
    decreases es.len(),
{
    if es.len() > 0 {
        lemma_entries_text(es.drop_last());
        let e = es.last();
        lemma_joined_append(all_entry_rows(es.drop_last()), entry_rows(e));
        let r = entry_rows(e);
        assert(joined(r) == joined(r.drop_last()) + line_of(e) + seq!['\n']);
        if e.comment.len() > 0 {
            let c = seq!['#', ' '] + e.comment;
            assert(r.drop_last() =~= seq![c]);
            assert(seq![c].drop_last() =~= Seq::<Seq<char>>::empty());
            assert(joined(seq![c]) == joined(Seq::<Seq<char>>::empty()) + c + seq!['\n']);
            assert(joined(r) =~= entry_text(e));
        } else {
            assert(r.drop_last() =~= Seq::<Seq<char>>::empty());
            assert(joined(r) =~= entry_text(e));
        }
    }
}

proof fn lemma_no_ws_count(f: Seq<char>)
    requires
        forall|i: int| 0 <= i < f.len() ==> !is_ws(#[trigger] f[i]),
    ensures
        count_ws(f) == 0,
    decreases f.len(),
{
    if f.len() > 0 {
        assert(!is_ws(f[0]));
        assert forall|i: int| 0 <= i < f.drop_first().len() implies !is_ws(#[trigger] f.drop_first()[i]) by {
            assert(f.drop_first()[i] == f[i + 1]);
        }
        lemma_no_ws_count(f.drop_first());
    }
}

/// One field followed by a space.
spec fn block(f: Seq<char>) -> Seq<char> {
    f + seq![' ']
}

proof fn lemma_block(f: Seq<char>)
    requires
        wf_field(f),
    ensures
        words(block(f)) == seq![f],
        count_ws(block(f)) == 1,
        block(f).last() == ' ',
        block(f).len() > 1,
        !is_ws(block(f).drop_last().last()),
{
    let b = block(f);
    assert(b.drop_last() =~= f);
    lemma_words_single(f);
    lemma_no_ws_count(f);
    lemma_count_ws_append(f, seq![' ']);
    lemma_space_count();
    assert(f.last() == f[f.len() - 1]);
}

proof fn lemma_space_count()
    ensures
        count_ws(seq![' ']) == 1,
{
    let s = seq![' '];
    assert(s.drop_first() =~= Seq::<char>::empty());
    assert(is_ws(s[0])) by {
        assert(s[0] == ' ');
        assert((' ' as u32) == 0x20);
    }
    assert(count_ws(s) == count_ws(s.drop_first()) + 1);
}

proof fn lemma_blocks(x: Seq<char>, f: Seq<char>, ws: Seq<Seq<char>>, n: nat)
    requires
        wf_field(f),
        x.len() > 0,
        x.last() == ' ',
        words(x) == ws,
        count_ws(x) == n,
    ensures
        words(x + block(f)) == ws.push(f),
        count_ws(x + block(f)) == n + 1,
        (x + block(f)).last() == ' ',
        (x + block(f)).len() > 0,
        !is_ws((x + block(f)).drop_last().last()),
{
    lemma_block(f);
    lemma_words_append(x, block(f));
    lemma_count_ws_append(x, block(f));
    assert((x + block(f)).last() == block(f).last());
    assert((x + block(f)).drop_last() =~= x + block(f).drop_last());
    assert(block(f).drop_last() =~= f);
    assert(f.last() == f[f.len() - 1]);
}

/// The fields part of an entry line, `m h d mo w `.
/// The five fields of an entry, single-space separated.
pub open spec fn line_fields(e: EntryView) -> Seq<char> {
    e.minute + (seq![' '] + (e.hour + (seq![' '] + (e.day + (seq![' '] + (e.month + (seq![' '] + e.weekday)))))))
}

/// Past the five fields of a well-formed entry comes what follows them.
proof fn lemma_after_words_fields(e: EntryView, rest: Seq<char>)
    requires
        wf_entry(e),
        rest.len() == 0 || is_ws(rest[0]),
    ensures
        after_words(line_fields(e) + rest, 5) == rest,
{
    let sp = seq![' '];
    let r4 = e.weekday + rest;
    let r3 = e.month + (sp + r4);
    let r2 = e.day + (sp + r3);
    let r1 = e.hour + (sp + r2);
    assert(line_fields(e) + rest =~= e.minute + (sp + r1));
    lemma_after_words_field(e.minute, sp + r1, 4);
    lemma_after_words_space(r1, 4);
    lemma_after_words_field(e.hour, sp + r2, 3);
    lemma_after_words_space(r2, 3);
    lemma_after_words_field(e.day, sp + r3, 2);
    lemma_after_words_space(r3, 2);
    lemma_after_words_field(e.month, sp + r4, 1);
    lemma_after_words_space(r4, 1);
    lemma_after_words_field(e.weekday, rest, 0);
}

proof fn lemma_fields_prefix(e: EntryView)
    requires
        wf_entry(e),
    ensures
        ({
            let fp = with_field(with_field(with_field(with_field(with_field(Seq::empty(), e.minute), e.hour), e.day), e.month), e.weekday);
            &&& words(fp) == seq![e.minute, e.hour, e.day, e.month, e.weekday]
            &&& count_ws(fp) == 5
            &&& fp.len() > 0
            &&& fp.last() == ' '
            &&& !is_ws(fp.drop_last().last())
            &&& fp[0] == e.minute[0]
            &&& e.minute.len() < fp.len() - 1
            &&& fp[e.minute.len() as int] == ' '
            &&& line_of(e) == fp + e.command
        }),
{
    let b1 = block(e.minute);
    lemma_block(e.minute);
    lemma_blocks(b1, e.hour, seq![e.minute], 1);
    assert(seq![e.minute].push(e.hour) =~= seq![e.minute, e.hour]);
    let b2 = b1 + block(e.hour);
    lemma_blocks(b2, e.day, seq![e.minute, e.hour], 2);
    assert(seq![e.minute, e.hour].push(e.day) =~= seq![e.minute, e.hour, e.day]);
    let b3 = b2 + block(e.day);
    lemma_blocks(b3, e.month, seq![e.minute, e.hour, e.day], 3);
    assert(seq![e.minute, e.hour, e.day].push(e.month) =~= seq![e.minute, e.hour, e.day, e.month]);
    let b4 = b3 + block(e.month);
    lemma_blocks(b4, e.weekday, seq![e.minute, e.hour, e.day, e.month], 4);
    let b5 = b4 + block(e.weekday);
    let fp = with_field(with_field(with_field(with_field(with_field(Seq::empty(), e.minute), e.hour), e.day), e.month), e.weekday);
    assert(fp =~= b5);
    assert(seq![e.minute].push(e.hour) =~= seq![e.minute, e.hour]);
    assert(seq![e.minute, e.hour].push(e.day) =~= seq![e.minute, e.hour, e.day]);
    assert(seq![e.minute, e.hour, e.day].push(e.month) =~= seq![e.minute, e.hour, e.day, e.month]);
    assert(seq![e.minute, e.hour, e.day, e.month].push(e.weekday) =~= seq![e.minute, e.hour, e.day, e.month, e.weekday]);
    assert(fp[0] == e.minute[0]);
    assert(fp[e.minute.len() as int] == ' ');
}

/// Reading an entry's lines after environment lines and earlier entries
/// adds the entry, trimmed.
proof fn lemma_read_entry(st: Reading, e: EntryView)
    requires
        wf_entry(e),
        st.pending.len() == 0,
    ensures
        read_from(st, entry_rows(e)) == (Reading { entries: st.entries.push(normalized(e)), pending: Seq::empty(), ..st }),
{
    let rows = entry_rows(e);
    // the comment line
    let st1 = if e.comment.len() > 0 {
        let row = seq!['#', ' '] + e.comment;
        let sp = seq![' '] + e.comment;
        assert(row =~= seq!['#'] + sp);
        lemma_trim_start_fixed(row);
        lemma_trim_end_append(seq!['#'], sp);
        let t = trim(row);
        assert(trim_end(seq!['#']) == seq!['#']) by {
            lemma_trim_end_fixed(seq!['#']);
        }
        assert(t.len() > 0 && t[0] == '#');
        assert(t.drop_first() =~= trim_end(sp));
        lemma_trim_commute(sp);
        lemma_trim_end_idem(trim_start(sp));
        assert(trim_start(sp) == trim_start(e.comment)) by {
            assert(sp.drop_first() =~= e.comment);
        }
        assert(trim(t.drop_first()) == trim(e.comment));
        assert(rows.drop_last() =~= seq![row]);
        assert(seq![row].drop_last() =~= Seq::<Seq<char>>::empty());
        assert(read_from(st, Seq::<Seq<char>>::empty()) == st);
        assert(read_from(st, seq![row]) == read_line(read_from(st, seq![row].drop_last()), seq![row].last()));
        assert(read_from(st, rows.drop_last()) == read_line(st, row));
        Reading { pending: trim(e.comment), ..st }
    } else {
        assert(rows.drop_last() =~= Seq::<Seq<char>>::empty());
        assert(trim(e.comment) =~= Seq::<char>::empty()) by {
            assert(e.comment =~= Seq::<char>::empty());
        }
        assert(st.pending =~= Seq::<char>::empty());
        st
    };
    assert(read_from(st, rows.drop_last()) == st1);
    assert(st1.pending == trim(e.comment));
    assert(st1.entries == st.entries && st1.env == st.env);
    // the entry line
    lemma_fields_prefix(e);
    let fp = with_field(with_field(with_field(with_field(with_field(Seq::empty(), e.minute), e.hour), e.day), e.month), e.weekday);
    let x = line_of(e);
    assert(rows.last() == x);
    lemma_trim_start_fixed(x);
    assert(x[0] == fp[0]);
    lemma_trim_end_append(fp, e.command);
    let t = trim(x);
    assert(t == trim_end(x));
    lemma_trim_commute(e.command);
    if trim_end(e.command).len() > 0 {
        let y = trim_end(e.command);
        assert(t == fp + y);
        assert(t[0] == e.minute[0]);
        assert(t.contains(' ')) by {
            assert(t[e.minute.len() as int] == ' ');
        }
        lemma_trim_end_idem(e.command);
        assert(y.len() > 0 && !is_ws(y.last()));
        lemma_words_append(fp, y);
        assert(words(t).len() >= 5);
        assert(words(t)[0] == e.minute && words(t)[1] == e.hour && words(t)[2] == e.day && words(t)[3] == e.month
            && words(t)[4] == e.weekday);
        lemma_after_words_fields(e, seq![' '] + y);
        assert(fp + y =~= line_fields(e) + (seq![' '] + y));
        assert(trim_start(seq![' '] + y) == trim_start(y)) by {
            assert((seq![' '] + y).drop_first() =~= y);
        }
        assert(trim_start(y) == trim(e.command));
        assert(!is_env_line(t));
        let w = words(t);
        let ev = EntryView {
            minute: w[0],
            hour: w[1],
            day: w[2],
            month: w[3],
            weekday: w[4],
            command: trim_start(y),
            comment: st1.pending,
        };
        assert(ev == normalized(e));
        assert(read_line(st1, x) == (Reading { entries: st1.entries.push(ev), pending: Seq::empty(), ..st1 }));
    } else {
        assert(t == trim_end(fp));
        assert(fp.drop_last().len() > 0);
        lemma_trim_end_fixed(fp.drop_last());
        assert(trim_end(fp) == fp.drop_last());
        assert(t[0] == e.minute[0]);
        assert(t.contains(' ')) by {
            assert(t[e.minute.len() as int] == ' ');
        }
        assert(words(t) == words(fp));
        lemma_after_words_fields(e, Seq::empty());
        assert(fp.drop_last() =~= line_fields(e) + Seq::<char>::empty());
        assert(trim(e.command) =~= Seq::<char>::empty());
        assert(!is_env_line(t));
        let w = words(t);
        assert(w == seq![e.minute, e.hour, e.day, e.month, e.weekday]);
        assert(w[0] == e.minute && w[1] == e.hour && w[2] == e.day && w[3] == e.month && w[4] == e.weekday);
        let ev = EntryView {
            minute: w[0],
            hour: w[1],
            day: w[2],
            month: w[3],
            weekday: w[4],
            command: Seq::empty(),
            comment: st1.pending,
        };
        assert(ev == normalized(e));
        assert(read_line(st1, x) == (Reading { entries: st1.entries.push(ev), pending: Seq::empty(), ..st1 }));
    }
    assert(read_from(st, rows) == read_line(read_from(st, rows.drop_last()), rows.last()));
}

/// Read after write: the crontab text written for environment lines `env`
/// and entries `es` reads back as exactly those environment lines and
/// entries (commands and comments trimmed), with no comment left pending.
pub proof fn law_read_after_write(es: Seq<EntryView>, env: Seq<Seq<char>>)
    requires
        forall|i: int| 0 <= i < env.len() ==> wf_env_line(#[trigger] env[i]),
        forall|i: int| 0 <= i < es.len() ==> wf_entry(#[trigger] es[i]),
    ensures
        read_crontab(crontab_text(es, env)) == (Reading { entries: normalized_all(es), env: env, pending: Seq::empty() }),
{
    let rows = env + all_entry_rows(es);
    lemma_env_text(env);
    lemma_entries_text(es);
    lemma_joined_append(env, all_entry_rows(es));
    assert(crontab_text(es, env) == joined(rows));
    lemma_rows_single_lines(es, env);
    lemma_lines_joined(rows);
    lemma_read_lines_from(rows.map_values(|r: Seq<char>| strip_cr(r)));
    lemma_read_from_strip_cr(start_reading(), rows);
    lemma_read_from_append(start_reading(), env, all_entry_rows(es));
    lemma_read_env(env);
    lemma_read_entries(es, env);
}

proof fn lemma_rows_single_lines(es: Seq<EntryView>, env: Seq<Seq<char>>)
    requires
        forall|i: int| 0 <= i < env.len() ==> wf_env_line(#[trigger] env[i]),
        forall|i: int| 0 <= i < es.len() ==> wf_entry(#[trigger] es[i]),
    ensures
        forall|i: int| 0 <= i < (env + all_entry_rows(es)).len() ==> !(#[trigger] (env + all_entry_rows(es))[i]).contains('\n'),
{
    lemma_entry_rows_single(es);
    let rows = env + all_entry_rows(es);
    assert forall|i: int| 0 <= i < rows.len() implies !(#[trigger] rows[i]).contains('\n') by {
        if i < env.len() {
            assert(rows[i] == env[i]);
        } else {
            assert(rows[i] == all_entry_rows(es)[i - env.len()]);
        }
    }
}

proof fn lemma_entry_rows_single(es: Seq<EntryView>)
    requires
        forall|i: int| 0 <= i < es.len() ==> wf_entry(#[trigger] es[i]),
    ensures
        forall|i: int| 0 <= i < all_entry_rows(es).len() ==> !(#[trigger] all_entry_rows(es)[i]).contains('\n'),
    decreases es.len(),
{
    if es.len() > 0 {
        let e = es.last();
        assert(wf_entry(es[es.len() - 1]));
        assert forall|i: int| 0 <= i < es.drop_last().len() implies wf_entry(#[trigger] es.drop_last()[i]) by {
            assert(es.drop_last()[i] == es[i]);
        }
        lemma_entry_rows_single(es.drop_last());
        lemma_fields_prefix(e);
        let a = all_entry_rows(es.drop_last());
        let r = entry_rows(e);
        assert forall|i: int| 0 <= i < r.len() implies !(#[trigger] r[i]).contains('\n') by {
            if i == r.len() - 1 {
                let x = line_of(e);
                assert(r[i] == x);
                if x.contains('\n') {
                    let k = choose|k: int| 0 <= k < x.len() && x[k] == '\n';
                    let fp = with_field(with_field(with_field(with_field(with_field(Seq::empty(), e.minute), e.hour), e.day), e.month), e.weekday);
                    if k < fp.len() {
                        lemma_fields_no_newline(e, k);
                    } else {
                        assert(e.command[k - fp.len()] == '\n');
                    }
                }
            } else {
                let row = seq!['#', ' '] + e.comment;
                assert(r[i] == row);
                if row.contains('\n') {
                    let k = choose|k: int| 0 <= k < row.len() && row[k] == '\n';
                    assert(e.comment[k - 2] == '\n');
                }
            }
        }
        assert forall|i: int| 0 <= i < all_entry_rows(es).len() implies !(#[trigger] all_entry_rows(es)[i]).contains('\n') by {
            if i < a.len() {
                assert(all_entry_rows(es)[i] == a[i]);
            } else {
                assert(all_entry_rows(es)[i] == r[i - a.len()]);
            }
        }
    }
}

proof fn lemma_fields_no_newline(e: EntryView, k: int)
    requires
        wf_entry(e),
        0 <= k < with_field(with_field(with_field(with_field(with_field(Seq::empty(), e.minute), e.hour), e.day), e.month), e.weekday).len(),
    ensures
        with_field(with_field(with_field(with_field(with_field(Seq::empty(), e.minute), e.hour), e.day), e.month), e.weekday)[k] != '\n',
{
    let fp = with_field(with_field(with_field(with_field(with_field(Seq::empty(), e.minute), e.hour), e.day), e.month), e.weekday);
    if fp[k] == '\n' {
        assert(is_ws(fp[k]));
        let parts = seq![e.minute, e.hour, e.day, e.month, e.weekday];
        assert(fp =~= e.minute + seq![' '] + e.hour + seq![' '] + e.day + seq![' '] + e.month + seq![' '] + e.weekday + seq![' ']);
        let l0 = e.minute.len() as int;
        let l1 = l0 + 1 + e.hour.len();
        let l2 = l1 + 1 + e.day.len();
        let l3 = l2 + 1 + e.month.len();
        let l4 = l3 + 1 + e.weekday.len();
        if k < l0 {
            assert(fp[k] == e.minute[k]);
        } else if k == l0 || k == l1 || k == l2 || k == l3 || k == l4 {
        } else if k < l1 {
            assert(fp[k] == e.hour[k - l0 - 1]);
        } else if k < l2 {
            assert(fp[k] == e.day[k - l1 - 1]);
        } else if k < l3 {
            assert(fp[k] == e.month[k - l2 - 1]);
        } else {
            assert(fp[k] == e.weekday[k - l3 - 1]);
        }
    }
}

proof fn lemma_read_env(env: Seq<Seq<char>>)
    requires
        forall|i: int| 0 <= i < env.len() ==> wf_env_line(#[trigger] env[i]),
    ensures
        read_from(start_reading(), env) == (Reading { entries: Seq::empty(), env: env, pending: Seq::empty() }),
    decreases env.len(),
{
    if env.len() > 0 {
        assert forall|i: int| 0 <= i < env.drop_last().len() implies wf_env_line(#[trigger] env.drop_last()[i]) by {
            assert(env.drop_last()[i] == env[i]);
        }
        lemma_read_env(env.drop_last());
        let t = env.last();
        assert(wf_env_line(env[env.len() - 1]));
        lemma_trim_start_fixed(t);
        lemma_trim_end_fixed(t);
        assert(trim(t) == t);
        let st = read_from(start_reading(), env.drop_last());
        assert(read_from(start_reading(), env) == read_line(st, t));
        assert(read_line(st, t) == (Reading { env: st.env.push(t), pending: Seq::empty(), ..st }));
        assert(env.drop_last().push(t) =~= env);
    } else {
        assert(env =~= Seq::<Seq<char>>::empty());
    }
}

proof fn lemma_read_entries(es: Seq<EntryView>, env: Seq<Seq<char>>)
    requires
        forall|i: int| 0 <= i < es.len() ==> wf_entry(#[trigger] es[i]),
    ensures
        read_from((Reading { entries: Seq::empty(), env: env, pending: Seq::empty() }), all_entry_rows(es)) == (Reading {
            entries: normalized_all(es),
            env: env,
            pending: Seq::empty(),
        }),
    decreases es.len(),
{
    let st0 = Reading { entries: Seq::empty(), env: env, pending: Seq::empty() };
    if es.len() == 0 {
        assert(normalized_all(es) =~= Seq::<EntryView>::empty());
    } else {
        assert forall|i: int| 0 <= i < es.drop_last().len() implies wf_entry(#[trigger] es.drop_last()[i]) by {
            assert(es.drop_last()[i] == es[i]);
        }
        lemma_read_entries(es.drop_last(), env);
        lemma_read_from_append(st0, all_entry_rows(es.drop_last()), entry_rows(es.last()));
        assert(wf_entry(es[es.len() - 1]));
        lemma_read_entry(read_from(st0, all_entry_rows(es.drop_last())), es.last());
        assert(normalized_all(es.drop_last()).push(normalized(es.last())) =~= normalized_all(es));
    }
}

/// What every reading holds: well-formed, trimmed entries, well-formed
/// environment lines, and a trimmed single-line pending comment.
pub open spec fn reading_ok(st: Reading) -> bool {
    &&& forall|i: int| 0 <= i < st.entries.len() ==> wf_entry(#[trigger] st.entries[i]) && normalized(st.entries[i]) == st.entries[i]
    &&& forall|i: int| 0 <= i < st.env.len() ==> wf_env_line(#[trigger] st.env[i])
    &&& !st.pending.contains('\n')
    &&& trim(st.pending) == st.pending
}

proof fn lemma_no_newline_sub(s: Seq<char>, a: int, b: int)
    requires
        !s.contains('\n'),
        0 <= a <= b <= s.len(),
    ensures
        !s.subrange(a, b).contains('\n'),
{
    if s.subrange(a, b).contains('\n') {
        let k = choose|k: int| 0 <= k < s.subrange(a, b).len() && s.subrange(a, b)[k] == '\n';
        assert(s[a + k] == '\n');
    }
}

proof fn lemma_trim_no_newline(s: Seq<char>)
    requires
        !s.contains('\n'),
    ensures
        !trim(s).contains('\n'),
{
    lemma_trim_start_suffix(s);
    let u = trim_start(s);
    lemma_no_newline_sub(s, s.len() - u.len(), s.len() as int);
    assert(u =~= s.subrange(s.len() - u.len(), s.len() as int));
    lemma_trim_end_prefix(u);
    lemma_no_newline_sub(u, 0, trim_end(u).len() as int);
    assert(trim_end(u) =~= u.subrange(0, trim_end(u).len() as int));
}

proof fn lemma_trim_end_prefix(s: Seq<char>)
    ensures
        trim_end(s).len() <= s.len(),
        trim_end(s) == s.take(trim_end(s).len() as int),
    decreases s.len(),
{
    if s.len() > 0 && is_ws(s.last()) {
        lemma_trim_end_prefix(s.drop_last());
        assert(s.drop_last().take(trim_end(s).len() as int) =~= s.take(trim_end(s).len() as int));
    } else {
        assert(s.take(s.len() as int) =~= s);
    }
}

proof fn lemma_read_line_ok(st: Reading, line: Seq<char>)
    requires
        reading_ok(st),
        !line.contains('\n'),
    ensures
        reading_ok(read_line(st, line)),
{
    let t = trim(line);
    lemma_trim_is_trimmed(line);
    lemma_trim_no_newline(line);
    if t.len() == 0 {
    } else if t[0] == '#' {
        let c = t.drop_first();
        lemma_no_newline_sub(t, 1, t.len() as int);
        assert(c =~= t.subrange(1, t.len() as int));
        lemma_trim_no_newline(c);
        lemma_trim_is_trimmed(c);
    } else if is_env_line(t) {
        let st2 = read_line(st, line);
        assert(st2.env == st.env.push(t));
        assert forall|i: int| 0 <= i < st2.env.len() implies wf_env_line(#[trigger] st2.env[i]) by {
            if i < st.env.len() {
                assert(st2.env[i] == st.env[i]);
            }
        }
    } else if words(t).len() < 5 {
    } else {
        let w = words(t);
        lemma_words_wf(t);
        lemma_first_word_start(t);
        let command = trim_start(after_words(t, 5));
        let e = EntryView {
            minute: w[0],
            hour: w[1],
            day: w[2],
            month: w[3],
            weekday: w[4],
            command: command,
            comment: st.pending,
        };
        assert(wf_field(w[0]) && wf_field(w[1]) && wf_field(w[2]) && wf_field(w[3]) && wf_field(w[4]));
        {
            {
                let r = after_words(t, 5);
                lemma_after_words_suffix(t, 5);
                lemma_no_newline_sub(t, t.len() - r.len(), t.len() as int);
                assert(r =~= t.subrange(t.len() - r.len(), t.len() as int));
                lemma_trim_start_suffix(r);
                let u = trim_start(r);
                lemma_no_newline_sub(r, r.len() - u.len(), r.len() as int);
                assert(u =~= r.subrange(r.len() - u.len(), r.len() as int));
                if u.len() > 0 {
                    assert(u.last() == r.last());
                    assert(r.last() == t.last());
                    assert(!is_ws(t.last()));
                    crate::text::lemma_trim_start_idem(r);
                    lemma_trim_end_fixed(u);
                    crate::text::lemma_trim_start_fixed(u);
                } else {
                    assert(trim(u) =~= u);
                }
                assert(trim(command) == command);
            }
        }
        assert(normalized(e) == e);
        assert(wf_entry(e));
        let st2 = read_line(st, line);
        assert(st2.entries == st.entries.push(e));
        assert forall|i: int| 0 <= i < st2.entries.len() implies wf_entry(#[trigger] st2.entries[i]) && normalized(st2.entries[i]) == st2.entries[i] by {
            if i < st.entries.len() {
                assert(st2.entries[i] == st.entries[i]);
            }
        }
        assert(trim(Seq::<char>::empty()) =~= Seq::<char>::empty());
    }
    assert(trim(Seq::<char>::empty()) =~= Seq::<char>::empty());
}

proof fn lemma_read_lines_ok(ls: Seq<Seq<char>>)
    requires
        forall|i: int| 0 <= i < ls.len() ==> !(#[trigger] ls[i]).contains('\n'),
    ensures
        reading_ok(read_lines(ls)),
    decreases ls.len(),
{
    if ls.len() == 0 {
        assert(trim(Seq::<char>::empty()) =~= Seq::<char>::empty());
    } else {
        assert forall|i: int| 0 <= i < ls.drop_last().len() implies !(#[trigger] ls.drop_last()[i]).contains('\n') by {
            assert(ls.drop_last()[i] == ls[i]);
        }
        lemma_read_lines_ok(ls.drop_last());
        assert(ls[ls.len() - 1] == ls.last());
        lemma_read_line_ok(read_lines(ls.drop_last()), ls.last());
    }
}

/// Every crontab reads as well-formed, trimmed entries and well-formed
/// environment lines.
pub proof fn law_reading_well_formed(text: Seq<char>)
    ensures
        reading_ok(read_crontab(text)),
{
    lemma_lines_no_newline(text);
    lemma_read_lines_ok(lines(text));
}

/// A crontab written back from what was read from it reads the same.
pub proof fn law_reread(text: Seq<char>)
    ensures
        read_crontab(crontab_text(read_crontab(text).entries, read_crontab(text).env)).entries == read_crontab(text).entries,
        read_crontab(crontab_text(read_crontab(text).entries, read_crontab(text).env)).env == read_crontab(text).env,
{
    let st = read_crontab(text);
    law_reading_well_formed(text);
    law_read_after_write(st.entries, st.env);
    assert(normalized_all(st.entries) =~= st.entries);
}

/// A valid entry reads back: validation keeps whitespace, `#` and newlines
/// out of every field, and newlines out of command and comment.
pub proof fn lemma_valid_entry_wf(e: EntryView)
    requires
        validation(e) is None,
    ensures
        wf_entry(e),
{
    assert forall|f: Seq<char>| valid_field_spec(f) implies wf_field(f) && f[0] != '#' by {
        assert forall|i: int| 0 <= i < f.len() implies !is_ws(#[trigger] f[i]) by {
            assert(field_char(f[i]));
        }
        assert(field_char(f[0]));
    }
    assert(valid_field_spec(e.minute));
}

/// After a valid entry is added, the crontab lists its former entries and
/// then the new one (command and comment trimmed); its environment lines
/// stay.
pub proof fn law_add_then_list(raw: Seq<char>, entry: EntryView)
    requires
        validation(entry) is None,
    ensures
        read_crontab(crontab_text(read_crontab(raw).entries.push(entry), read_crontab(raw).env)).entries
            == read_crontab(raw).entries.push(normalized(entry)),
        read_crontab(crontab_text(read_crontab(raw).entries.push(entry), read_crontab(raw).env)).env == read_crontab(raw).env,
{
    let st = read_crontab(raw);
    law_reading_well_formed(raw);
    lemma_valid_entry_wf(entry);
    let es = st.entries.push(entry);
    assert forall|i: int| 0 <= i < es.len() implies wf_entry(#[trigger] es[i]) by {
        if i < st.entries.len() {
            assert(es[i] == st.entries[i]);
        }
    }
    law_read_after_write(es, st.env);
    assert(normalized_all(es) =~= st.entries.push(normalized(entry)));
}

/// After entry `index` is replaced by a valid entry, the crontab lists the
/// same entries with that one replaced (command and comment trimmed); its
/// environment lines stay.
pub proof fn law_update_then_list(raw: Seq<char>, index: int, entry: EntryView)
    requires
        validation(entry) is None,
        0 <= index < read_crontab(raw).entries.len(),
    ensures
        read_crontab(crontab_text(read_crontab(raw).entries.update(index, entry), read_crontab(raw).env)).entries
            == read_crontab(raw).entries.update(index, normalized(entry)),
        read_crontab(crontab_text(read_crontab(raw).entries.update(index, entry), read_crontab(raw).env)).env
            == read_crontab(raw).env,
{
    let st = read_crontab(raw);
    law_reading_well_formed(raw);
    lemma_valid_entry_wf(entry);
    let es = st.entries.update(index, entry);
    assert forall|i: int| 0 <= i < es.len() implies wf_entry(#[trigger] es[i]) by {
        if i != index {
            assert(es[i] == st.entries[i]);
        }
    }
    law_read_after_write(es, st.env);
    assert(normalized_all(es) =~= st.entries.update(index, normalized(entry)));
}

/// After entry `index` is deleted, the crontab lists the other entries in
/// the same order; its environment lines stay.
pub proof fn law_delete_then_list(raw: Seq<char>, index: int)
    requires
        0 <= index < read_crontab(raw).entries.len(),
    ensures
        read_crontab(crontab_text(read_crontab(raw).entries.remove(index), read_crontab(raw).env)).entries
            == read_crontab(raw).entries.remove(index),
        read_crontab(crontab_text(read_crontab(raw).entries.remove(index), read_crontab(raw).env)).env
            == read_crontab(raw).env,
{
    let st = read_crontab(raw);
    law_reading_well_formed(raw);
    let es = st.entries.remove(index);
    assert forall|i: int| 0 <= i < es.len() implies wf_entry(#[trigger] es[i]) by {
        if i < index {
            assert(es[i] == st.entries[i]);
        } else {
            assert(es[i] == st.entries[i + 1]);
        }
    }
    law_read_after_write(es, st.env);
    assert forall|i: int| 0 <= i < es.len() implies #[trigger] normalized_all(es)[i] == es[i] by {
        if i < index {
            assert(es[i] == st.entries[i]);
        } else {
            assert(es[i] == st.entries[i + 1]);
        }
    }
    assert(normalized_all(es) =~= es);
}

} // verus!
