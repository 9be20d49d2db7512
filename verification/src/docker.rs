//! Docker control: containers, images and Compose projects.
//!
//! Every listing is read from a fixed `docker ... --format` template with
//! tab-separated fields, never from the human-readable tables. Identifiers
//! that reach a command line are checked first so that none can pass as an
//! option.
use vstd::prelude::*;
use crate::distro::Family;
use crate::text::{
    before_last, before_last_chars, chars_lt, chars_of, decimal, decimal_of, eq_chars, has_prefix, lemma_seq_lt_asymmetric,
    lemma_seq_lt_irreflexive, lemma_seq_lt_total, lemma_seq_lt_transitive, lines, lines_of,
    push_chars, push_str, seq_lt, slice_chars, split_on, split_on_char, starts_with, string_of,
    string_views, trim, trim_chars, views,
};

verus! {

/// State of the Docker installation, shown by the front end.
pub struct DockerStatus {
    /// The `docker` command line exists.
    pub installed: bool,
    /// The daemon answers.
    pub running: bool,
    /// The systemd unit of the daemon is active.
    pub daemon: bool,
    /// Output of `docker --version`, trimmed.
    pub version: String,
    /// Compose flavour: `v2` (`docker compose`), `v1` (`docker-compose`) or empty.
    pub compose: String,
    /// Why Docker cannot be used; empty when it can.
    pub error: String,
}

/// One container of `docker ps -a`.
pub struct ContainerInfo {
    pub id: String,
    pub name: String,
    pub image: String,
    /// running / exited / paused ...
    pub state: String,
    /// Human-readable status, such as `Up 3 hours`.
    pub status: String,
    /// Port mappings, such as `0.0.0.0:8080->80/tcp`.
    pub ports: String,
    pub running_for: String,
    /// CPU use (running containers only).
    pub cpu: String,
    /// Memory use (running containers only).
    pub mem: String,
    /// Compose project of the container, empty when none.
    pub project: String,
}

/// One image of `docker images`.
pub struct ImageInfo {
    pub id: String,
    pub repository: String,
    pub tag: String,
    pub size: String,
    /// How long ago it was created.
    pub created: String,
}

/// One Compose project.
pub struct ComposeProject {
    pub name: String,
    pub status: String,
    /// Path of the compose file(s).
    pub config_files: String,
    /// Working directory (known from container labels).
    pub working_dir: String,
    /// Number of containers.
    pub containers: usize,
}

/// Operation on a container or a Compose project.
#[derive(Clone, Copy, PartialEq, Eq, Debug, Structural)]
pub enum Action {
    Start,
    Stop,
    Restart,
    Remove,
    Up,
    Down,
}

/// Why a Docker request was refused.
#[derive(Clone, Copy, PartialEq, Eq, Debug, Structural)]
pub enum DockerError {
    /// Container identifier rejected.
    BadId,
    /// Image reference rejected.
    BadImageRef,
    /// Image identifier rejected.
    BadImageId,
    /// Compose project name rejected.
    BadProjectName,
    /// The operation does not apply to containers (or to projects).
    Unsupported,
    /// A line of `docker compose ls` output is not JSON.
    BadComposeJson,
}

/// A character allowed in container identifiers and project names.
pub open spec fn id_char(c: char) -> bool {
    ('0' <= c <= '9') || ('a' <= c <= 'z') || ('A' <= c <= 'Z') || c == '_' || c == '.' || c == '-'
}

/// A character allowed in image references (`registry/name:tag`, `@digest`).
pub open spec fn image_char(c: char) -> bool {
    ('0' <= c <= '9') || ('a' <= c <= 'z') || ('A' <= c <= 'Z') || c == '/' || c == ':' || c == '.'
        || c == '_' || c == '-' || c == '@'
}

/// A container identifier or project name: 1 to 128 characters from
/// `id_char`, not starting with `-`.
pub open spec fn valid_id(s: Seq<char>) -> bool {
    &&& 0 < s.len() <= 128
    &&& s[0] != '-'
    &&& forall|i: int| 0 <= i < s.len() ==> id_char(#[trigger] s[i])
}

/// An image reference: 1 to 256 characters from `image_char`, not starting
/// with `-`.
pub open spec fn valid_image_ref(s: Seq<char>) -> bool {
    &&& 0 < s.len() <= 256
    &&& s[0] != '-'
    &&& forall|i: int| 0 <= i < s.len() ==> image_char(#[trigger] s[i])
}

/// What an image reference may be: 1 to 256 characters, not starting with
/// `-`, each an ASCII letter or digit or one of `/ : . _ - @`. So a tag with
/// a hyphen (`nginx:1.25-alpine`), a registry path and a digest pass, and
/// whitespace, shell characters or a leading `-` (an option) do not.
pub proof fn law_image_refs(s: Seq<char>)
    ensures
        valid_image_ref(s) <==> {
            &&& 1 <= s.len() <= 256
            &&& s[0] != '-'
            &&& forall|i: int|
                0 <= i < s.len() ==> {
                    let c = #[trigger] s[i];
                    ||| ('a' <= c && c <= 'z')
                    ||| ('A' <= c && c <= 'Z')
                    ||| ('0' <= c && c <= '9')
                    ||| c == '/'
                    ||| c == ':'
                    ||| c == '.'
                    ||| c == '_'
                    ||| c == '-'
                    ||| c == '@'
                }
        },
{
}

/// An image identifier for removal: 1 to 256 bytes, not starting with `-`.
pub open spec fn valid_image_id(s: Seq<char>) -> bool {
    &&& s.len() > 0
    &&& vstd::utf8::encode_utf8(s).len() <= 256
    &&& s[0] != '-'
}

fn is_id_char(c: char) -> (b: bool)
    ensures
        b == id_char(c),
{
    ('0' <= c && c <= '9') || ('a' <= c && c <= 'z') || ('A' <= c && c <= 'Z') || c == '_' || c == '.'
        || c == '-'
}

fn is_image_char(c: char) -> (b: bool)
    ensures
        b == image_char(c),
{
    ('0' <= c && c <= '9') || ('a' <= c && c <= 'z') || ('A' <= c && c <= 'Z') || c == '/' || c == ':'
        || c == '.' || c == '_' || c == '-' || c == '@'
}

fn id_ok(s: &str) -> (b: bool)
    ensures
        b == valid_id(s@),
{
    let v = chars_of(s);
    if v.len() == 0 || v.len() > 128 || v[0] == '-' {
        return false;
    }
    let mut i: usize = 0;
    while i < v.len()
        invariant
            i <= v@.len(),
            v@ == s@,
            forall|j: int| 0 <= j < i ==> id_char(#[trigger] v@[j]),
        decreases v@.len() - i,
    {
        if !is_id_char(v[i]) {
            assert(!id_char(s@[i as int]));
            return false;
        }
        i = i + 1;
    }
    true
}

/// Checks a container identifier before it reaches a command line.
pub fn check_id(id: &str) -> (r: Result<(), DockerError>)
    ensures
        r is Ok <==> valid_id(id@),
        r matches Err(e) ==> e == DockerError::BadId,
{
    if id_ok(id) {
        Ok(())
    } else {
        Err(DockerError::BadId)
    }
}

/// Checks an image reference (`registry/name:tag`, `name@digest`).
pub fn check_image_ref(r: &str) -> (res: Result<(), DockerError>)
    ensures
        res is Ok <==> valid_image_ref(r@),
        res matches Err(e) ==> e == DockerError::BadImageRef,
{
    let v = chars_of(r);
    if v.len() == 0 || v.len() > 256 || v[0] == '-' {
        return Err(DockerError::BadImageRef);
    }
    let mut i: usize = 0;
    while i < v.len()
        invariant
            i <= v@.len(),
            v@ == r@,
            forall|j: int| 0 <= j < i ==> image_char(#[trigger] v@[j]),
        decreases v@.len() - i,
    {
        if !is_image_char(v[i]) {
            assert(!image_char(r@[i as int]));
            return Err(DockerError::BadImageRef);
        }
        i = i + 1;
    }
    Ok(())
}

/// Checks an image identifier before `docker rmi`.
pub fn check_image_id(id: &str) -> (r: Result<(), DockerError>)
    ensures
        r is Ok <==> valid_image_id(id@),
        r matches Err(e) ==> e == DockerError::BadImageId,
{
    let n = id.as_bytes().len();
    if id.is_empty() || n > 256 {
        return Err(DockerError::BadImageId);
    }
    let v = chars_of(id);
    if v[0] == '-' {
        return Err(DockerError::BadImageId);
    }
    Ok(())
}

/// Checks a Compose project name (same alphabet as container identifiers).
pub fn check_project_name(name: &str) -> (r: Result<(), DockerError>)
    ensures
        r is Ok <==> valid_id(name@),
        r matches Err(e) ==> e == DockerError::BadProjectName,
{
    if id_ok(name) {
        Ok(())
    } else {
        Err(DockerError::BadProjectName)
    }
}

/// Label key of the Compose project.
pub open spec fn project_key() -> Seq<char> {
    "com.docker.compose.project="@
}

/// Label key of the Compose working directory.
pub open spec fn working_dir_key() -> Seq<char> {
    "com.docker.compose.project.working_dir="@
}

/// Label key of the Compose configuration files.
pub open spec fn config_files_key() -> Seq<char> {
    "com.docker.compose.project.config_files="@
}

/// The value after `key` of the first of `kvs` that starts with `key` once
/// trimmed; empty when none does.
pub open spec fn first_label(kvs: Seq<Seq<char>>, key: Seq<char>) -> Seq<char>
    decreases kvs.len(),
{
    if kvs.len() == 0 {
        Seq::empty()
    } else if starts_with(trim(kvs[0]), key) {
        trim(kvs[0]).skip(key.len() as int)
    } else {
        first_label(kvs.drop_first(), key)
    }
}

/// The value of label `key` in a comma-separated `Labels` field.
pub open spec fn label_value(labels: Seq<char>, key: Seq<char>) -> Seq<char> {
    first_label(split_on(labels, ','), key)
}

fn label_value_of(labels: &[char], key: &[char]) -> (r: Vec<char>)
    ensures
        r@ == label_value(labels@, key@),
{
    let kvs = split_on_char(labels, ',');
    let ghost all = views(kvs@);
    let mut i: usize = 0;
    assert(all.skip(0) =~= all);
    while i < kvs.len()
        invariant
            i <= kvs@.len(),
            all == views(kvs@),
            all == split_on(labels@, ','),
            first_label(all, key@) == first_label(all.skip(i as int), key@),
        decreases kvs@.len() - i,
    {
        assert(all.skip(i as int)[0] == kvs@[i as int]@);
        let t = trim_chars(&kvs[i]);
        if has_prefix(&t, key) {
            let r = slice_chars(&t, key.len(), t.len());
            assert(r@ =~= t@.skip(key@.len() as int));
            return r;
        }
        assert(all.skip(i as int).drop_first() =~= all.skip(i + 1));
        i = i + 1;
    }
    Vec::new()
}

/// The Compose project named in a `Labels` field (empty when none).
pub fn project_from_labels(labels: &str) -> (s: String)
    ensures
        s@ == label_value(labels@, project_key()),
{
    let l = chars_of(labels);
    let k = chars_of("com.docker.compose.project=");
    string_of(&label_value_of(&l, &k))
}

/// The rows of a tab-separated listing: each line split at tabs, keeping
/// the lines with at least `n` fields.
pub open spec fn rows(ls: Seq<Seq<char>>, n: nat) -> Seq<Seq<Seq<char>>>
    decreases ls.len(),
{
    if ls.len() == 0 {
        Seq::empty()
    } else {
        let r = rows(ls.drop_last(), n);
        let f = split_on(ls.last(), '\t');
        if f.len() >= n {
            r.push(f)
        } else {
            r
        }
    }
}

pub open spec fn views2(v: Seq<Vec<Vec<char>>>) -> Seq<Seq<Seq<char>>> {
    v.map_values(|x: Vec<Vec<char>>| views(x@))
}

/// The rows of `text` with at least `n` fields.
fn rows_of(text: &str, n: usize) -> (r: Vec<Vec<Vec<char>>>)
    ensures
        views2(r@) == rows(lines(text@), n as nat),
        forall|i: int| 0 <= i < r@.len() ==> #[trigger] r@[i]@.len() >= n,
{
    let cv = chars_of(text);
    let ls = lines_of(&cv);
    let ghost all = views(ls@);
    let mut r: Vec<Vec<Vec<char>>> = Vec::new();
    let mut i: usize = 0;
    assert(all.take(0) =~= Seq::<Seq<char>>::empty());
    assert(views2(r@) =~= Seq::<Seq<Seq<char>>>::empty());
    while i < ls.len()
        invariant
            i <= ls@.len(),
            all == views(ls@),
            all == lines(text@),
            views2(r@) == rows(all.take(i as int), n as nat),
            forall|k: int| 0 <= k < r@.len() ==> #[trigger] r@[k]@.len() >= n,
        decreases ls@.len() - i,
    {
        assert(all.take(i + 1).drop_last() =~= all.take(i as int));
        assert(all.take(i + 1).last() == ls@[i as int]@);
        let f = split_on_char(&ls[i], '\t');
        if f.len() >= n {
            let ghost old_r = views2(r@);
            r.push(f);
            assert(views2(r@) =~= old_r.push(views(f@)));
        }
        i = i + 1;
    }
    assert(all.take(ls@.len() as int) =~= all);
    r
}

/// CPU and memory use of container `id` in the rows of `docker stats`: the
/// last row about it.
pub open spec fn stat_for(srows: Seq<Seq<Seq<char>>>, id: Seq<char>) -> Option<(Seq<char>, Seq<char>)>
    decreases srows.len(),
{
    if srows.len() == 0 {
        None
    } else if srows.last()[0] == id {
        Some((srows.last()[1], srows.last()[2]))
    } else {
        stat_for(srows.drop_last(), id)
    }
}

/// The CPU and memory figures shown for container row `i`: those of
/// `docker stats`, unless an earlier row had the same id and took them.
pub open spec fn container_stats(crows: Seq<Seq<Seq<char>>>, i: int, srows: Seq<Seq<Seq<char>>>) -> (
    Seq<char>,
    Seq<char>,
) {
    if exists|j: int| 0 <= j < i && crows[j][0] == crows[i][0] {
        (Seq::empty(), Seq::empty())
    } else {
        match stat_for(srows, crows[i][0]) {
            Some(p) => p,
            None => (Seq::empty(), Seq::empty()),
        }
    }
}

/// `c` is the container of `docker ps` row `f` with figures `st`.
pub open spec fn container_matches(c: ContainerInfo, f: Seq<Seq<char>>, st: (Seq<char>, Seq<char>)) -> bool {
    &&& c.id@ == f[0]
    &&& c.name@ == f[1]
    &&& c.image@ == f[2]
    &&& c.state@ == f[3]
    &&& c.status@ == f[4]
    &&& c.ports@ == f[5]
    &&& c.running_for@ == f[6]
    &&& c.cpu@ == st.0
    &&& c.mem@ == st.1
    &&& c.project@ == label_value(if f.len() > 7 { f[7] } else { Seq::empty() }, project_key())
}

fn stat_lookup(srows: &Vec<Vec<Vec<char>>>, id: &[char]) -> (r: Option<(Vec<char>, Vec<char>)>)
    requires
        forall|i: int| 0 <= i < srows@.len() ==> #[trigger] srows@[i]@.len() >= 3,
    ensures
        match stat_for(views2(srows@), id@) {
            Some(p) => r matches Some(q) && q.0@ == p.0 && q.1@ == p.1,
            None => r is None,
        },
{
    let ghost all = views2(srows@);
    let mut k: usize = srows.len();
    assert(all.take(k as int) =~= all);
    while k > 0
        invariant
            k <= srows@.len(),
            all == views2(srows@),
            forall|i: int| 0 <= i < srows@.len() ==> #[trigger] srows@[i]@.len() >= 3,
            stat_for(all, id@) == stat_for(all.take(k as int), id@),
        decreases k,
    {
        let row = &srows[k - 1];
        assert(all.take(k as int).last() == views(row@));
        assert(all.take(k as int).drop_last() =~= all.take(k - 1));
        if eq_chars(&row[0], id) {
            return Some((row[1].clone(), row[2].clone()));
        }
        k = k - 1;
    }
    None
}

/// Whether an earlier row than `i` has the same id as row `i`.
fn seen_before(crows: &Vec<Vec<Vec<char>>>, i: usize) -> (b: bool)
    requires
        i < crows@.len(),
        forall|k: int| 0 <= k < crows@.len() ==> #[trigger] crows@[k]@.len() >= 1,
    ensures
        b == exists|j: int| 0 <= j < i && views2(crows@)[j][0] == views2(crows@)[i as int][0],
{
    let ghost all = views2(crows@);
    let mut j: usize = 0;
    while j < i
        invariant
            j <= i < crows@.len(),
            all == views2(crows@),
            forall|k: int| 0 <= k < crows@.len() ==> #[trigger] crows@[k]@.len() >= 1,
            forall|k: int| 0 <= k < j ==> all[k][0] != all[i as int][0],
        decreases i - j,
    {
        if eq_chars(&crows[j][0], &crows[i][0]) {
            assert(all[j as int][0] == all[i as int][0]);
            return true;
        }
        j = j + 1;
    }
    false
}

/// The containers of `docker ps -a` output `ps` (template
/// `ID Names Image State Status Ports RunningFor Labels`, tab separated),
/// with the CPU and memory figures of `docker stats` output `stats`
/// (template `ID CPUPerc MemUsage`; empty when that command failed). Lines
/// with fewer than seven fields are skipped.
pub fn parse_containers(ps: &str, stats: &str) -> (list: Vec<ContainerInfo>)
    ensures
        list@.len() == rows(lines(ps@), 7).len(),
        forall|i: int|
            0 <= i < list@.len() ==> container_matches(
                #[trigger] list@[i],
                rows(lines(ps@), 7)[i],
                container_stats(rows(lines(ps@), 7), i, rows(lines(stats@), 3)),
            ),
{
    let crows = rows_of(ps, 7);
    let srows = rows_of(stats, 3);
    let ghost cr = views2(crows@);
    let ghost sr = views2(srows@);
    let key = chars_of("com.docker.compose.project=");
    let mut list: Vec<ContainerInfo> = Vec::new();
    let mut i: usize = 0;
    while i < crows.len()
        invariant
            i <= crows@.len(),
            cr == views2(crows@),
            sr == views2(srows@),
            cr == rows(lines(ps@), 7),
            sr == rows(lines(stats@), 3),
            key@ == project_key(),
            forall|k: int| 0 <= k < crows@.len() ==> #[trigger] crows@[k]@.len() >= 7,
            forall|k: int| 0 <= k < srows@.len() ==> #[trigger] srows@[k]@.len() >= 3,
            list@.len() == i,
            forall|k: int|
                0 <= k < i ==> container_matches(#[trigger] list@[k], cr[k], container_stats(cr, k, sr)),
        decreases crows@.len() - i,
    {
        let f = &crows[i];
        assert(cr[i as int] == views(f@));
        let taken = seen_before(&crows, i);
        let (cpu, mem) = if taken {
            (Vec::new(), Vec::new())
        } else {
            match stat_lookup(&srows, &f[0]) {
                Some(p) => p,
                None => (Vec::new(), Vec::new()),
            }
        };
        let empty: Vec<char> = Vec::new();
        let labels = if f.len() > 7 {
            &f[7]
        } else {
            &empty
        };
        let project = label_value_of(labels, &key);
        let c = ContainerInfo {
            id: string_of(&f[0]),
            name: string_of(&f[1]),
            image: string_of(&f[2]),
            state: string_of(&f[3]),
            status: string_of(&f[4]),
            ports: string_of(&f[5]),
            running_for: string_of(&f[6]),
            cpu: string_of(&cpu),
            mem: string_of(&mem),
            project: string_of(&project),
        };
        assert(container_matches(c, cr[i as int], container_stats(cr, i as int, sr)));
        list.push(c);
        i = i + 1;
    }
    list
}

/// `m` is the image of `docker images` row `f`.
pub open spec fn image_matches(m: ImageInfo, f: Seq<Seq<char>>) -> bool {
    &&& m.id@ == f[0]
    &&& m.repository@ == f[1]
    &&& m.tag@ == f[2]
    &&& m.size@ == f[3]
    &&& m.created@ == f[4]
}

/// The images of `docker images` output (template
/// `ID Repository Tag Size CreatedSince`, tab separated); lines with fewer
/// than five fields are skipped.
pub fn parse_images(text: &str) -> (list: Vec<ImageInfo>)
    ensures
        list@.len() == rows(lines(text@), 5).len(),
        forall|i: int| 0 <= i < list@.len() ==> image_matches(#[trigger] list@[i], rows(lines(text@), 5)[i]),
{
    let r = rows_of(text, 5);
    let ghost rv = views2(r@);
    let mut list: Vec<ImageInfo> = Vec::new();
    let mut i: usize = 0;
    while i < r.len()
        invariant
            i <= r@.len(),
            rv == views2(r@),
            rv == rows(lines(text@), 5),
            forall|k: int| 0 <= k < r@.len() ==> #[trigger] r@[k]@.len() >= 5,
            list@.len() == i,
            forall|k: int| 0 <= k < i ==> image_matches(#[trigger] list@[k], rv[k]),
        decreases r@.len() - i,
    {
        let f = &r[i];
        assert(rv[i as int] == views(f@));
        let m = ImageInfo {
            id: string_of(&f[0]),
            repository: string_of(&f[1]),
            tag: string_of(&f[2]),
            size: string_of(&f[3]),
            created: string_of(&f[4]),
        };
        list.push(m);
        i = i + 1;
    }
    list
}

/// The Compose project of a `State Labels` row.
pub open spec fn project_of(f: Seq<Seq<char>>) -> Seq<char> {
    label_value(f[1], project_key())
}

/// Number of rows of project `name`.
pub open spec fn count_in(rs: Seq<Seq<Seq<char>>>, name: Seq<char>) -> nat
    decreases rs.len(),
{
    if rs.len() == 0 {
        0
    } else {
        count_in(rs.drop_last(), name) + if project_of(rs.last()) == name {
            1nat
        } else {
            0nat
        }
    }
}

/// Number of rows of project `name` whose state is `running`.
pub open spec fn count_running(rs: Seq<Seq<Seq<char>>>, name: Seq<char>) -> nat
    decreases rs.len(),
{
    if rs.len() == 0 {
        0
    } else {
        count_running(rs.drop_last(), name) + if project_of(rs.last()) == name && rs.last()[0]
            == "running"@ {
            1nat
        } else {
            0nat
        }
    }
}

/// Index of the first row of project `name`, `-1` when there is none.
pub open spec fn first_index(rs: Seq<Seq<Seq<char>>>, name: Seq<char>) -> int
    decreases rs.len(),
{
    if rs.len() == 0 {
        -1
    } else if first_index(rs.drop_last(), name) >= 0 {
        first_index(rs.drop_last(), name)
    } else if project_of(rs.last()) == name {
        rs.len() - 1
    } else {
        -1
    }
}

/// Status text of a project: `running/total 运行中`.
pub open spec fn status_text(running: nat, total: nat) -> Seq<char> {
    decimal(running) + seq!['/'] + decimal(total) + " 运行中"@
}

/// `p` is what the label rows `rs` say of project `name`: its number of
/// containers and of running ones, and the working directory and
/// configuration files named by its first container.
pub open spec fn project_matches(p: ComposeProject, rs: Seq<Seq<Seq<char>>>, name: Seq<char>) -> bool {
    let f = rs[first_index(rs, name)];
    &&& p.name@ == name
    &&& p.containers == count_in(rs, name)
    &&& p.status@ == status_text(count_running(rs, name), count_in(rs, name))
    &&& p.working_dir@ == label_value(f[1], working_dir_key())
    &&& p.config_files@ == label_value(f[1], config_files_key())
}

/// Names in strictly increasing order.
pub open spec fn sorted_names(ns: Seq<Seq<char>>) -> bool {
    forall|i: int, j: int| 0 <= i < j < ns.len() ==> seq_lt(#[trigger] ns[i], #[trigger] ns[j])
}

proof fn lemma_first_index(rs: Seq<Seq<Seq<char>>>, name: Seq<char>)
    ensures
        count_in(rs, name) <= rs.len(),
        count_running(rs, name) <= count_in(rs, name),
        count_in(rs, name) > 0 <==> first_index(rs, name) >= 0,
        first_index(rs, name) >= 0 ==> first_index(rs, name) < rs.len() && project_of(
            rs[first_index(rs, name)],
        ) == name,
    decreases rs.len(),
{
    if rs.len() > 0 {
        lemma_first_index(rs.drop_last(), name);
    }
}

proof fn lemma_label_step(rs: Seq<Seq<Seq<char>>>, k: int, name: Seq<char>)
    requires
        0 <= k < rs.len(),
    ensures
        count_in(rs.take(k + 1), name) == count_in(rs.take(k), name) + if project_of(rs[k]) == name {
            1nat
        } else {
            0nat
        },
        count_running(rs.take(k + 1), name) == count_running(rs.take(k), name) + if project_of(rs[k])
            == name && rs[k][0] == "running"@ {
            1nat
        } else {
            0nat
        },
        first_index(rs.take(k), name) >= 0 ==> first_index(rs.take(k + 1), name) == first_index(
            rs.take(k),
            name,
        ),
        first_index(rs.take(k), name) < 0 && project_of(rs[k]) == name ==> first_index(
            rs.take(k + 1),
            name,
        ) == k,
        forall|j: int| 0 <= j <= k ==> #[trigger] rs.take(k + 1)[j] == rs[j],
        forall|j: int| 0 <= j < k ==> #[trigger] rs.take(k)[j] == rs[j],
{
    assert(rs.take(k + 1).drop_last() =~= rs.take(k));
}

proof fn lemma_sorted_insert(ns: Seq<Seq<char>>, p: int, n: Seq<char>)
    requires
        sorted_names(ns),
        0 <= p <= ns.len(),
        forall|q: int| 0 <= q < p ==> seq_lt(#[trigger] ns[q], n),
        p < ns.len() ==> seq_lt(n, ns[p]),
    ensures
        sorted_names(ns.insert(p, n)),
{
    let t = ns.insert(p, n);
    assert forall|i: int, j: int| 0 <= i < j < t.len() implies seq_lt(#[trigger] t[i], #[trigger] t[j]) by {
        if j < p {
        } else if j == p {
        } else if i > p {
            assert(t[i] == ns[i - 1]);
            assert(t[j] == ns[j - 1]);
        } else if i == p {
            assert(t[j] == ns[j - 1]);
            if j - 1 > p {
                lemma_seq_lt_transitive(n, ns[p], ns[j - 1]);
            }
        } else {
            assert(t[j] == ns[j - 1]);
            if j - 1 > p {
                lemma_seq_lt_transitive(n, ns[p], ns[j - 1]);
            }
            lemma_seq_lt_transitive(ns[i], n, ns[j - 1]);
        }
    }
}

/// A project being gathered.
struct Agg {
    name: Vec<char>,
    total: usize,
    running: usize,
    dir: Vec<char>,
    cfg: Vec<char>,
}

spec fn agg_ok(a: Agg, rs: Seq<Seq<Seq<char>>>) -> bool {
    let f = rs[first_index(rs, a.name@)];
    &&& a.name@.len() > 0
    &&& count_in(rs, a.name@) > 0
    &&& a.total == count_in(rs, a.name@)
    &&& a.running == count_running(rs, a.name@)
    &&& a.dir@ == label_value(f[1], working_dir_key())
    &&& a.cfg@ == label_value(f[1], config_files_key())
}

spec fn agg_names(v: Seq<Agg>) -> Seq<Seq<char>> {
    v.map_values(|a: Agg| a.name@)
}

/// Where `name` stands among the sorted `out`: its index when present, else
/// the index it would be inserted at.
fn find_slot(out: &Vec<Agg>, name: &[char]) -> (r: (usize, bool))
    requires
        sorted_names(agg_names(out@)),
    ensures
        r.0 <= out@.len(),
        r.1 ==> r.0 < out@.len() && out@[r.0 as int].name@ == name@,
        !r.1 ==> forall|q: int| 0 <= q < r.0 ==> seq_lt(#[trigger] out@[q].name@, name@),
        !r.1 ==> r.0 < out@.len() ==> seq_lt(name@, out@[r.0 as int].name@),
        !r.1 ==> forall|q: int| 0 <= q < out@.len() ==> #[trigger] out@[q].name@ != name@,
{
    let mut p: usize = 0;
    while p < out.len()
        invariant
            p <= out@.len(),
            sorted_names(agg_names(out@)),
            forall|q: int| 0 <= q < p ==> seq_lt(#[trigger] out@[q].name@, name@),
        decreases out@.len() - p,
    {
        if eq_chars(&out[p].name, name) {
            return (p, true);
        }
        if chars_lt(name, &out[p].name) {
            proof {
                assert forall|q: int| 0 <= q < out@.len() implies #[trigger] out@[q].name@ != name@ by {
                    if q < p {
                        lemma_seq_lt_irreflexive(name@);
                    } else if q > p {
                        assert(agg_names(out@)[p as int] == out@[p as int].name@);
                        assert(agg_names(out@)[q] == out@[q].name@);
                        lemma_seq_lt_transitive(name@, out@[p as int].name@, out@[q].name@);
                        lemma_seq_lt_irreflexive(name@);
                    }
                }
            }
            return (p, false);
        }
        proof {
            lemma_seq_lt_total(name@, out@[p as int].name@);
        }
        p = p + 1;
    }
    proof {
        assert forall|q: int| 0 <= q < out@.len() implies #[trigger] out@[q].name@ != name@ by {
            lemma_seq_lt_irreflexive(name@);
        }
    }
    (p, false)
}

pub open spec fn project_names(v: Seq<ComposeProject>) -> Seq<Seq<char>> {
    v.map_values(|p: ComposeProject| p.name@)
}

/// The Compose projects named by the container labels in `docker ps -a`
/// output (template `State Labels`, tab separated): one project for each
/// project name that occurs, in name order, with its container counts and
/// the directory and files named by its first container. This is the
/// listing used when `compose ls` is unavailable.
pub fn projects_from_labels(text: &str) -> (out: Vec<ComposeProject>)
    ensures
        sorted_names(project_names(out@)),
        forall|i: int|
            0 <= i < out@.len() ==> {
                let rs = rows(lines(text@), 2);
                &&& (#[trigger] out@[i]).name@.len() > 0
                &&& count_in(rs, out@[i].name@) > 0
                &&& project_matches(out@[i], rs, out@[i].name@)
            },
        forall|k: int|
            0 <= k < rows(lines(text@), 2).len() && project_of(#[trigger] rows(lines(text@), 2)[k]).len()
                > 0 ==> exists|i: int| 0 <= i < out@.len() && out@[i].name@ == project_of(rows(lines(text@), 2)[k]),
{
    let rs = rows_of(text, 2);
    let ghost rv = views2(rs@);
    let pkey = chars_of("com.docker.compose.project=");
    let dkey = chars_of("com.docker.compose.project.working_dir=");
    let ckey = chars_of("com.docker.compose.project.config_files=");
    let running = chars_of("running");
    let mut out: Vec<Agg> = Vec::new();
    let mut k: usize = 0;
    while k < rs.len()
        invariant
            k <= rs@.len(),
            rv == views2(rs@),
            rv == rows(lines(text@), 2),
            forall|j: int| 0 <= j < rs@.len() ==> #[trigger] rs@[j]@.len() >= 2,
            pkey@ == project_key(),
            dkey@ == working_dir_key(),
            ckey@ == config_files_key(),
            running@ == "running"@,
            out@.len() <= k,
            sorted_names(agg_names(out@)),
            forall|i: int| 0 <= i < out@.len() ==> agg_ok(#[trigger] out@[i], rv.take(k as int)),
            forall|j: int|
                0 <= j < k && project_of(#[trigger] rv[j]).len() > 0 ==> exists|i: int|
                    0 <= i < out@.len() && out@[i].name@ == project_of(rv[j]),
        decreases rs@.len() - k,
    {
        let f = &rs[k];
        assert(rv[k as int] == views(f@));
        let ghost before = out@;
        let ghost t0 = rv.take(k as int);
        let ghost t1 = rv.take(k + 1);
        let proj = label_value_of(&f[1], &pkey);
        assert(proj@ == project_of(rv[k as int]));
        if proj.len() > 0 {
            let is_run = eq_chars(&f[0], &running);
            let (p, found) = find_slot(&out, &proj);
            proof {
                lemma_label_step(rv, k as int, proj@);
                lemma_first_index(t0, proj@);
            }
            if found {
                let a = &out[p];
                assert(agg_ok(*a, t0));
                let na = Agg {
                    name: a.name.clone(),
                    total: a.total + 1,
                    running: if is_run {
                        a.running + 1
                    } else {
                        a.running
                    },
                    dir: a.dir.clone(),
                    cfg: a.cfg.clone(),
                };
                out.set(p, na);
                proof {
                    assert(agg_names(out@) =~= agg_names(before));
                    assert forall|i: int| 0 <= i < out@.len() implies agg_ok(#[trigger] out@[i], t1) by {
                        let m = out@[i].name@;
                        lemma_label_step(rv, k as int, m);
                        lemma_first_index(t0, m);
                        if i != p {
                            assert(agg_ok(before[i], t0));
                            assert(agg_names(before)[i] == m);
                            assert(agg_names(before)[p as int] == proj@);
                            lemma_seq_lt_irreflexive(m);
                            lemma_seq_lt_total(m, proj@);
                        }
                    }
                    assert forall|j: int|
                        0 <= j < k + 1 && project_of(#[trigger] rv[j]).len() > 0 implies exists|i: int|
                        0 <= i < out@.len() && out@[i].name@ == project_of(rv[j]) by {
                        if j < k {
                            let i0 = choose|i: int| 0 <= i < before.len() && before[i].name@ == project_of(rv[j]);
                            assert(out@[i0].name@ == before[i0].name@);
                        } else {
                            assert(out@[p as int].name@ == project_of(rv[j]));
                        }
                    }
                }
            } else {
                let dir = label_value_of(&f[1], &dkey);
                let cfg = label_value_of(&f[1], &ckey);
                let ghost pn = proj@;
                let na = Agg {
                    name: proj,
                    total: 1,
                    running: if is_run {
                        1
                    } else {
                        0
                    },
                    dir,
                    cfg,
                };
                out.insert(p, na);
                proof {
                    assert(agg_names(out@) =~= agg_names(before).insert(p as int, pn));
                    assert forall|q: int| 0 <= q < p implies seq_lt(#[trigger] agg_names(before)[q], pn) by {
                        assert(agg_names(before)[q] == before[q].name@);
                    }
                    if p < before.len() {
                        assert(agg_names(before)[p as int] == before[p as int].name@);
                    }
                    lemma_sorted_insert(agg_names(before), p as int, pn);
                    assert forall|i: int| 0 <= i < out@.len() implies agg_ok(#[trigger] out@[i], t1) by {
                        let m = out@[i].name@;
                        lemma_label_step(rv, k as int, m);
                        lemma_first_index(t0, m);
                        if i < p {
                            assert(out@[i] == before[i]);
                            assert(agg_ok(before[i], t0));
                            assert(before[i].name@ != pn);
                        } else if i > p {
                            assert(out@[i] == before[i - 1]);
                            assert(agg_ok(before[i - 1], t0));
                            assert(before[i - 1].name@ != pn);
                        } else {
                            assert(count_in(t0, pn) == 0) by {
                                if count_in(t0, pn) > 0 {
                                    let j = first_index(t0, pn);
                                    assert(t0[j] == rv[j]);
                                    let i0 = choose|i: int| 0 <= i < before.len() && before[i].name@ == project_of(rv[j]);
                                    assert(before[i0].name@ != pn);
                                }
                            }
                        }
                    }
                    assert forall|j: int|
                        0 <= j < k + 1 && project_of(#[trigger] rv[j]).len() > 0 implies exists|i: int|
                        0 <= i < out@.len() && out@[i].name@ == project_of(rv[j]) by {
                        if j < k {
                            let i0 = choose|i: int| 0 <= i < before.len() && before[i].name@ == project_of(rv[j]);
                            if i0 < p {
                                assert(out@[i0].name@ == before[i0].name@);
                            } else {
                                assert(out@[i0 + 1].name@ == before[i0].name@);
                            }
                        } else {
                            assert(out@[p as int].name@ == project_of(rv[j]));
                        }
                    }
                }
            }
        } else {
            proof {
                assert forall|i: int| 0 <= i < out@.len() implies agg_ok(#[trigger] out@[i], t1) by {
                    let m = out@[i].name@;
                    lemma_label_step(rv, k as int, m);
                    lemma_first_index(t0, m);
                }
                assert forall|j: int|
                    0 <= j < k + 1 && project_of(#[trigger] rv[j]).len() > 0 implies exists|i: int|
                    0 <= i < out@.len() && out@[i].name@ == project_of(rv[j]) by {
                    if j < k {
                    } else {
                    }
                }
            }
        }
        k = k + 1;
    }
    assert(rv.take(rs@.len() as int) =~= rv);
    let mut res: Vec<ComposeProject> = Vec::new();
    let mut i: usize = 0;
    while i < out.len()
        invariant
            i <= out@.len(),
            sorted_names(agg_names(out@)),
            forall|q: int| 0 <= q < out@.len() ==> agg_ok(#[trigger] out@[q], rv),
            res@.len() == i,
            forall|q: int| 0 <= q < i ==> #[trigger] res@[q].name@ == out@[q].name@,
            forall|q: int| 0 <= q < i ==> project_matches(#[trigger] res@[q], rv, out@[q].name@),
        decreases out@.len() - i,
    {
        let a = &out[i];
        assert(agg_ok(*a, rv));
        let mut st = decimal_of(a.running as u64);
        st.push('/');
        let tot = decimal_of(a.total as u64);
        push_chars(&mut st, &tot);
        push_str(&mut st, " 运行中");
        assert(st@ =~= status_text(a.running as nat, a.total as nat));
        let pr = ComposeProject {
            name: string_of(&a.name),
            status: string_of(&st),
            config_files: string_of(&a.cfg),
            working_dir: string_of(&a.dir),
            containers: a.total,
        };
        assert(project_matches(pr, rv, out@[i as int].name@));
        res.push(pr);
        i = i + 1;
    }
    proof {
        assert forall|x: int, y: int| 0 <= x < y < res@.len() implies seq_lt(
            #[trigger] project_names(res@)[x],
            #[trigger] project_names(res@)[y],
        ) by {
            assert(agg_names(out@)[x] == out@[x].name@);
            assert(agg_names(out@)[y] == out@[y].name@);
        }
        assert forall|q: int| 0 <= q < rv.len() && project_of(#[trigger] rv[q]).len() > 0 implies exists|x: int|
            0 <= x < res@.len() && res@[x].name@ == project_of(rv[q]) by {
            let i0 = choose|x: int| 0 <= x < out@.len() && out@[x].name@ == project_of(rv[q]);
            assert(res@[i0].name@ == out@[i0].name@);
        }
    }
    res
}

/// The Compose command prefix: the `docker compose` plugin when it answers,
/// else the standalone `docker-compose`, else none.
pub open spec fn compose_prefix_spec(plugin_ok: bool, standalone_ok: bool) -> Option<Seq<Seq<char>>> {
    if plugin_ok {
        Some(seq!["docker"@, "compose"@])
    } else if standalone_ok {
        Some(seq!["docker-compose"@])
    } else {
        None
    }
}

/// Chooses the Compose command prefix from the two probes
/// (`docker compose version --short`, `docker-compose --version`).
pub fn compose_prefix_from(plugin_ok: bool, standalone_ok: bool) -> (r: Option<Vec<String>>)
    ensures
        match compose_prefix_spec(plugin_ok, standalone_ok) {
            Some(p) => r matches Some(v) && string_views(v@) == p,
            None => r is None,
        },
{
    if plugin_ok {
        let mut v: Vec<String> = Vec::new();
        v.push("docker".to_owned());
        v.push("compose".to_owned());
        assert(string_views(v@) =~= seq!["docker"@, "compose"@]);
        Some(v)
    } else if standalone_ok {
        let mut v: Vec<String> = Vec::new();
        v.push("docker-compose".to_owned());
        assert(string_views(v@) =~= seq!["docker-compose"@]);
        Some(v)
    } else {
        None
    }
}

/// Compose flavour shown for a prefix: `v2` when it starts with `docker`,
/// `v1` otherwise, empty without Compose.
pub open spec fn compose_kind_spec(prefix: Option<Seq<Seq<char>>>) -> Seq<char> {
    match prefix {
        Some(p) => if p.len() > 0 && p[0] == "docker"@ {
            "v2"@
        } else {
            "v1"@
        },
        None => Seq::empty(),
    }
}

/// The state of the Docker installation from its probes: whether the daemon
/// unit is active, the output of `docker --version` (none when that command
/// failed), whether `docker info` answered, and the Compose prefix found.
pub open spec fn status_matches(
    st: DockerStatus,
    daemon: bool,
    version: Option<Seq<char>>,
    info_ok: bool,
    prefix: Option<Seq<Seq<char>>>,
) -> bool {
    &&& st.daemon == daemon
    &&& match version {
        None => {
            &&& !st.installed
            &&& !st.running
            &&& st.version@.len() == 0
            &&& st.compose@.len() == 0
            &&& st.error@ == if daemon {
                "检测到 Docker 守护进程正在运行，但缺少 docker 命令行工具（docker-cli）"@
            } else {
                "未检测到 Docker"@
            }
        },
        Some(v) => {
            &&& st.installed
            &&& st.running == info_ok
            &&& st.version@ == trim(v)
            &&& st.compose@ == compose_kind_spec(prefix)
            &&& st.error@ == if info_ok {
                Seq::empty()
            } else {
                "Docker 已安装但守护进程未运行，请启动 docker 服务"@
            }
        },
    }
}

/// Builds the Docker status from the probes (see `status_matches`). Probe
/// failures are no error: the status itself is what the front end shows.
pub fn status_from_probes(daemon: bool, version: Option<&str>, info_ok: bool, prefix: Option<Vec<String>>) -> (st:
    DockerStatus)
    ensures
        status_matches(
            st,
            daemon,
            match version {
                Some(v) => Some(v@),
                None => None,
            },
            info_ok,
            match prefix {
                Some(p) => Some(string_views(p@)),
                None => None,
            },
        ),
{
    match version {
        None => {
            let error = if daemon {
                "检测到 Docker 守护进程正在运行，但缺少 docker 命令行工具（docker-cli）".to_owned()
            } else {
                "未检测到 Docker".to_owned()
            };
            DockerStatus {
                installed: false,
                running: false,
                daemon,
                version: String::new(),
                compose: String::new(),
                error,
            }
        },
        Some(v) => {
            let vc = chars_of(v);
            let version = string_of(&trim_chars(&vc));
            let compose = match &prefix {
                Some(p) => {
                    if p.len() > 0 && eq_chars(&chars_of(p[0].as_str()), &chars_of("docker")) {
                        "v2".to_owned()
                    } else {
                        "v1".to_owned()
                    }
                },
                None => String::new(),
            };
            let error = if info_ok {
                String::new()
            } else {
                "Docker 已安装但守护进程未运行，请启动 docker 服务".to_owned()
            };
            DockerStatus { installed: true, running: info_ok, daemon, version, compose, error }
        },
    }
}

/// Arguments of `docker` for a container operation; none for the Compose
/// operations.
pub open spec fn container_args(id: Seq<char>, act: Action) -> Option<Seq<Seq<char>>> {
    match act {
        Action::Start => Some(seq!["start"@, id]),
        Action::Stop => Some(seq!["stop"@, id]),
        Action::Restart => Some(seq!["restart"@, id]),
        Action::Remove => Some(seq!["rm"@, "-f"@, id]),
        _ => None,
    }
}

/// The `docker` arguments of a container operation. A running container is
/// removed with `-f`, which docker requires.
pub fn container_action_args(id: &str, act: Action) -> (r: Result<Vec<String>, DockerError>)
    ensures
        !valid_id(id@) ==> r == Err::<Vec<String>, DockerError>(DockerError::BadId),
        valid_id(id@) && container_args(id@, act) is None ==> r == Err::<Vec<String>, DockerError>(
            DockerError::Unsupported,
        ),
        valid_id(id@) && container_args(id@, act) is Some ==> (r matches Ok(v) && string_views(v@)
            == container_args(id@, act).unwrap()),
{
    match check_id(id) {
        Err(e) => return Err(e),
        Ok(()) => {},
    }
    let mut v: Vec<String> = Vec::new();
    match act {
        Action::Start => v.push("start".to_owned()),
        Action::Stop => v.push("stop".to_owned()),
        Action::Restart => v.push("restart".to_owned()),
        Action::Remove => {
            v.push("rm".to_owned());
            v.push("-f".to_owned());
        },
        _ => return Err(DockerError::Unsupported),
    }
    v.push(id.to_owned());
    assert(string_views(v@) =~= container_args(id@, act).unwrap());
    Ok(v)
}

/// `tail` brought into `1..=5000`.
pub open spec fn clamp_tail(tail: nat) -> nat {
    if tail < 1 {
        1
    } else if tail > 5000 {
        5000
    } else {
        tail
    }
}

/// The `docker logs` arguments for the last `tail` lines of a container
/// (`tail` brought into 1..=5000).
pub fn logs_args(id: &str, tail: usize) -> (r: Result<Vec<String>, DockerError>)
    ensures
        !valid_id(id@) ==> r == Err::<Vec<String>, DockerError>(DockerError::BadId),
        valid_id(id@) ==> (r matches Ok(v) && string_views(v@) == seq![
            "logs"@,
            "--tail"@,
            decimal(clamp_tail(tail as nat)),
            id@,
        ]),
{
    match check_id(id) {
        Err(e) => return Err(e),
        Ok(()) => {},
    }
    let t: u64 = if tail < 1 {
        1
    } else if tail > 5000 {
        5000
    } else {
        tail as u64
    };
    let mut v: Vec<String> = Vec::new();
    v.push("logs".to_owned());
    v.push("--tail".to_owned());
    v.push(string_of(&decimal_of(t)));
    v.push(id.to_owned());
    assert(string_views(v@) =~= seq!["logs"@, "--tail"@, decimal(clamp_tail(tail as nat)), id@]);
    Ok(v)
}

/// The `docker pull` arguments for an image reference.
pub fn pull_args(reference: &str) -> (r: Result<Vec<String>, DockerError>)
    ensures
        !valid_image_ref(reference@) ==> r == Err::<Vec<String>, DockerError>(DockerError::BadImageRef),
        valid_image_ref(reference@) ==> (r matches Ok(v) && string_views(v@) == seq!["pull"@, reference@]),
{
    match check_image_ref(reference) {
        Err(e) => return Err(e),
        Ok(()) => {},
    }
    let mut v: Vec<String> = Vec::new();
    v.push("pull".to_owned());
    v.push(reference.to_owned());
    assert(string_views(v@) =~= seq!["pull"@, reference@]);
    Ok(v)
}

/// The `docker rmi -f` arguments for an image (removed even when a
/// container still uses it).
pub fn remove_image_args(id: &str) -> (r: Result<Vec<String>, DockerError>)
    ensures
        !valid_image_id(id@) ==> r == Err::<Vec<String>, DockerError>(DockerError::BadImageId),
        valid_image_id(id@) ==> (r matches Ok(v) && string_views(v@) == seq!["rmi"@, "-f"@, id@]),
{
    match check_image_id(id) {
        Err(e) => return Err(e),
        Ok(()) => {},
    }
    let mut v: Vec<String> = Vec::new();
    v.push("rmi".to_owned());
    v.push("-f".to_owned());
    v.push(id.to_owned());
    assert(string_views(v@) =~= seq!["rmi"@, "-f"@, id@]);
    Ok(v)
}

/// The Compose invocation for an operation on a project.
pub struct ComposeCommand {
    pub program: String,
    pub args: Vec<String>,
    /// Directory to run in (empty: the current one). Compose resolves the
    /// relative paths of a project from its working directory.
    pub dir: String,
}

/// Arguments of a Compose operation after the program: the rest of the
/// prefix, `-f cfg` when the configuration file is known, `-p name`, then
/// `up -d`, `down` or `restart`; none for the container operations.
pub open spec fn compose_args_spec(prefix: Seq<Seq<char>>, cfg: Seq<char>, name: Seq<char>, act: Action) -> Option<
    Seq<Seq<char>>,
> {
    let base = prefix.skip(1) + (if cfg.len() > 0 {
        seq!["-f"@, cfg]
    } else {
        Seq::empty()
    }) + seq!["-p"@, name];
    match act {
        Action::Up => Some(base + seq!["up"@, "-d"@]),
        Action::Down => Some(base.push("down"@)),
        Action::Restart => Some(base.push("restart"@)),
        _ => None,
    }
}

/// The Compose command for operation `act` on project `name`, given the
/// Compose prefix and the project's working directory and configuration
/// file (`locate_project`).
pub fn compose_command(name: &str, act: Action, prefix: &Vec<String>, dir: &str, cfg: &str) -> (r: Result<
    ComposeCommand,
    DockerError,
>)
    requires
        prefix@.len() >= 1,
    ensures
        !valid_id(name@) ==> r == Err::<ComposeCommand, DockerError>(DockerError::BadProjectName),
        valid_id(name@) && compose_args_spec(string_views(prefix@), cfg@, name@, act) is None ==> r == Err::<
            ComposeCommand,
            DockerError,
        >(DockerError::Unsupported),
        valid_id(name@) && compose_args_spec(string_views(prefix@), cfg@, name@, act) is Some ==> (r matches Ok(
            c,
        ) && c.program@ == prefix@[0]@ && string_views(c.args@) == compose_args_spec(
            string_views(prefix@),
            cfg@,
            name@,
            act,
        ).unwrap() && c.dir@ == dir@),
{
    match check_project_name(name) {
        Err(e) => return Err(e),
        Ok(()) => {},
    }
    let ghost pv = string_views(prefix@);
    let mut args: Vec<String> = Vec::new();
    let mut i: usize = 1;
    assert(pv.skip(1).take(0) =~= string_views(args@));
    while i < prefix.len()
        invariant
            1 <= i <= prefix@.len(),
            pv == string_views(prefix@),
            string_views(args@) == pv.skip(1).take(i - 1),
        decreases prefix@.len() - i,
    {
        let ghost old_args = string_views(args@);
        let x = prefix[i].as_str().to_owned();
        args.push(x);
        assert(string_views(args@) =~= old_args.push(pv[i as int]));
        i = i + 1;
        assert(string_views(args@) =~= pv.skip(1).take(i - 1));
    }
    assert(pv.skip(1).take(prefix@.len() - 1) =~= pv.skip(1));
    if !cfg.is_empty() {
        args.push("-f".to_owned());
        args.push(cfg.to_owned());
    }
    args.push("-p".to_owned());
    args.push(name.to_owned());
    let ghost base = string_views(args@);
    assert(base =~= pv.skip(1) + (if cfg@.len() > 0 {
        seq!["-f"@, cfg@]
    } else {
        Seq::empty()
    }) + seq!["-p"@, name@]);
    match act {
        Action::Up => {
            args.push("up".to_owned());
            args.push("-d".to_owned());
        },
        Action::Down => args.push("down".to_owned()),
        Action::Restart => args.push("restart".to_owned()),
        _ => return Err(DockerError::Unsupported),
    }
    assert(string_views(args@) =~= compose_args_spec(pv, cfg@, name@, act).unwrap());
    Ok(ComposeCommand { program: prefix[0].clone(), args, dir: dir.to_owned() })
}

/// Index of the first project named `name`, `-1` when none is.
pub open spec fn project_index(ps: Seq<ComposeProject>, name: Seq<char>) -> int
    decreases ps.len(),
{
    if ps.len() == 0 {
        -1
    } else if project_index(ps.drop_last(), name) >= 0 {
        project_index(ps.drop_last(), name)
    } else if ps.last().name@ == name {
        ps.len() - 1
    } else {
        -1
    }
}

/// Working directory and configuration file of project `name` among `ps`:
/// its working directory, or the directory of its configuration file when
/// the working directory is unknown; both empty when no project has that
/// name.
pub open spec fn locate_spec(ps: Seq<ComposeProject>, name: Seq<char>) -> (Seq<char>, Seq<char>) {
    let i = project_index(ps, name);
    if i < 0 {
        (Seq::empty(), Seq::empty())
    } else {
        let p = ps[i];
        let dir = if p.working_dir@.len() == 0 && p.config_files@.len() > 0 {
            before_last(p.config_files@, '/')
        } else {
            p.working_dir@
        };
        (dir, p.config_files@)
    }
}

/// Finds the working directory and configuration file of a project (it may
/// be stopped, so they come from the project listing).
pub fn locate_project(projects: &Vec<ComposeProject>, name: &str) -> (r: (String, String))
    ensures
        r.0@ == locate_spec(projects@, name@).0,
        r.1@ == locate_spec(projects@, name@).1,
{
    let nv = chars_of(name);
    let mut i: usize = 0;
    while i < projects.len()
        invariant
            i <= projects@.len(),
            nv@ == name@,
            forall|j: int| 0 <= j < i ==> #[trigger] projects@[j].name@ != name@,
        decreases projects@.len() - i,
    {
        let p = &projects[i];
        if eq_chars(&chars_of(p.name.as_str()), &nv) {
            proof {
                lemma_project_index(projects@, name@, i as int);
            }
            let cfg = chars_of(p.config_files.as_str());
            let dir = if p.working_dir.as_str().is_empty() && cfg.len() > 0 {
                string_of(&before_last_chars(&cfg, '/'))
            } else {
                p.working_dir.clone()
            };
            return (dir, p.config_files.clone());
        }
        i = i + 1;
    }
    proof {
        lemma_project_index_none(projects@, name@);
    }
    (String::new(), String::new())
}

proof fn lemma_project_index(ps: Seq<ComposeProject>, name: Seq<char>, i: int)
    requires
        0 <= i < ps.len(),
        ps[i].name@ == name,
        forall|j: int| 0 <= j < i ==> #[trigger] ps[j].name@ != name,
    ensures
        project_index(ps, name) == i,
    decreases ps.len(),
{
    if i < ps.len() - 1 {
        lemma_project_index(ps.drop_last(), name, i);
    } else {
        lemma_project_index_none(ps.drop_last(), name);
    }
}

proof fn lemma_project_index_none(ps: Seq<ComposeProject>, name: Seq<char>)
    requires
        forall|j: int| 0 <= j < ps.len() ==> #[trigger] ps[j].name@ != name,
    ensures
        project_index(ps, name) == -1,
    decreases ps.len(),
{
    if ps.len() > 0 {
        lemma_project_index_none(ps.drop_last(), name);
    }
}

/// Package-manager invocation: program, index refresh arguments, install
/// arguments.
pub struct PkgPlan {
    pub program: String,
    pub update_args: Vec<String>,
    pub install_args: Vec<String>,
}

/// How Docker is installed on each family. Debian lists `docker-cli`
/// explicitly (it is only a recommendation of `docker.io`) and takes the
/// standalone `docker-compose`.
pub open spec fn docker_plan_spec(family: Family) -> (Seq<char>, Seq<Seq<char>>, Seq<Seq<char>>) {
    match family {
        Family::Debian => (
            "apt-get"@,
            seq!["update"@],
            seq!["install"@, "-y"@, "--no-install-recommends"@, "docker.io"@, "docker-cli"@, "docker-compose"@],
        ),
        Family::Arch => (
            "pacman"@,
            seq!["-Sy"@, "--noconfirm"@],
            seq!["-S"@, "--noconfirm"@, "docker"@, "docker-compose"@],
        ),
    }
}

/// The package-manager commands that install Docker on `family`.
pub fn docker_install_plan(family: Family) -> (p: PkgPlan)
    ensures
        p.program@ == docker_plan_spec(family).0,
        string_views(p.update_args@) == docker_plan_spec(family).1,
        string_views(p.install_args@) == docker_plan_spec(family).2,
{
    let mut u: Vec<String> = Vec::new();
    let mut a: Vec<String> = Vec::new();
    match family {
        Family::Debian => {
            u.push("update".to_owned());
            a.push("install".to_owned());
            a.push("-y".to_owned());
            a.push("--no-install-recommends".to_owned());
            a.push("docker.io".to_owned());
            a.push("docker-cli".to_owned());
            a.push("docker-compose".to_owned());
            assert(string_views(u@) =~= docker_plan_spec(family).1);
            assert(string_views(a@) =~= docker_plan_spec(family).2);
            PkgPlan { program: "apt-get".to_owned(), update_args: u, install_args: a }
        },
        Family::Arch => {
            u.push("-Sy".to_owned());
            u.push("--noconfirm".to_owned());
            a.push("-S".to_owned());
            a.push("--noconfirm".to_owned());
            a.push("docker".to_owned());
            a.push("docker-compose".to_owned());
            assert(string_views(u@) =~= docker_plan_spec(family).1);
            assert(string_views(a@) =~= docker_plan_spec(family).2);
            PkgPlan { program: "pacman".to_owned(), update_args: u, install_args: a }
        },
    }
}

/// Whether `line` is one JSON text, as `serde_json::from_str::<Value>`
/// accepts it.
pub uninterp spec fn json_parses(line: Seq<char>) -> bool;

/// The string member `key` of the JSON text `line`: none when `line` is not
/// an object, has no member `key`, or that member is not a string.
pub uninterp spec fn json_str_member(line: Seq<char>, key: Seq<char>) -> Option<Seq<char>>;

/// Parses `line` with `serde_json::from_str::<serde_json::Value>` and takes
/// its string member `key` (`Value::get`, then the `Value::String` case).
/// Trusted: the result is `None` exactly when the line does not parse, and
/// otherwise the member as `json_str_member` names it; what JSON text parses
/// to is not stated here.
#[verifier::external_body]
fn json_member(line: &str, key: &str) -> (r: Option<Option<String>>)
    ensures
        r is Some <==> json_parses(line@),
        r matches Some(m) ==> match m {
            Some(s) => json_str_member(line@, key@) == Some(s@),
            None => json_str_member(line@, key@) is None,
        },
{
    match serde_json::from_str::<serde_json::Value>(line) {
        Ok(v) => match v.get(key) {
            Some(serde_json::Value::String(s)) => Some(Some(s.clone())),
            _ => Some(None),
        },
        Err(_) => None,
    }
}

/// The string, or empty.
pub open spec fn or_empty(m: Option<Seq<char>>) -> Seq<char> {
    match m {
        Some(s) => s,
        None => Seq::empty(),
    }
}

/// The lines of `ls` that are not blank.
pub open spec fn nonblank(ls: Seq<Seq<char>>) -> Seq<Seq<char>>
    decreases ls.len(),
{
    if ls.len() == 0 {
        Seq::empty()
    } else if trim(ls.last()).len() > 0 {
        nonblank(ls.drop_last()).push(ls.last())
    } else {
        nonblank(ls.drop_last())
    }
}

/// The project described by the members `Name`, `Status` and `ConfigFiles`
/// of one `compose ls` JSON line (a missing member reads as empty).
pub fn compose_project_from_members(name: Option<String>, status: Option<String>, config_files: Option<String>) -> (p:
    ComposeProject)
    ensures
        p.name@ == or_empty(
            match name {
                Some(s) => Some(s@),
                None => None,
            },
        ),
        p.status@ == or_empty(
            match status {
                Some(s) => Some(s@),
                None => None,
            },
        ),
        p.config_files@ == or_empty(
            match config_files {
                Some(s) => Some(s@),
                None => None,
            },
        ),
        p.working_dir@.len() == 0,
        p.containers == 0,
{
    ComposeProject {
        name: match name {
            Some(s) => s,
            None => String::new(),
        },
        status: match status {
            Some(s) => s,
            None => String::new(),
        },
        config_files: match config_files {
            Some(s) => s,
            None => String::new(),
        },
        working_dir: String::new(),
        containers: 0,
    }
}

/// `p` is the project of JSON line `l`.
pub open spec fn json_project_matches(p: ComposeProject, l: Seq<char>) -> bool {
    &&& p.name@ == or_empty(json_str_member(l, "Name"@))
    &&& p.status@ == or_empty(json_str_member(l, "Status"@))
    &&& p.config_files@ == or_empty(json_str_member(l, "ConfigFiles"@))
    &&& p.working_dir@.len() == 0
    &&& p.containers == 0
}

/// The projects of `docker compose ls --all --format json` output, one JSON
/// object per non-blank line; refused as a whole when a line is not JSON.
pub fn parse_compose_json(text: &str) -> (r: Result<Vec<ComposeProject>, DockerError>)
    ensures
        r is Ok <==> forall|i: int|
            0 <= i < nonblank(lines(text@)).len() ==> json_parses(#[trigger] nonblank(lines(text@))[i]),
        r matches Err(e) ==> e == DockerError::BadComposeJson,
        r matches Ok(v) ==> v@.len() == nonblank(lines(text@)).len() && forall|i: int|
            0 <= i < v@.len() ==> json_project_matches(#[trigger] v@[i], nonblank(lines(text@))[i]),
{
    let cv = chars_of(text);
    let ls = lines_of(&cv);
    let ghost all = views(ls@);
    let mut list: Vec<ComposeProject> = Vec::new();
    let mut i: usize = 0;
    assert(all.take(0) =~= Seq::<Seq<char>>::empty());
    while i < ls.len()
        invariant
            i <= ls@.len(),
            all == views(ls@),
            all == lines(text@),
            list@.len() == nonblank(all.take(i as int)).len(),
            forall|k: int|
                0 <= k < nonblank(all.take(i as int)).len() ==> json_parses(
                    #[trigger] nonblank(all.take(i as int))[k],
                ),
            forall|k: int|
                0 <= k < list@.len() ==> json_project_matches(#[trigger] list@[k], nonblank(all.take(i as int))[k]),
        decreases ls@.len() - i,
    {
        assert(all.take(i + 1).drop_last() =~= all.take(i as int));
        assert(all.take(i + 1).last() == ls@[i as int]@);
        let ghost nb0 = nonblank(all.take(i as int));
        let t = trim_chars(&ls[i]);
        if t.len() > 0 {
            let line = string_of(&ls[i]);
            let name = match json_member(line.as_str(), "Name") {
                None => {
                    assert(nonblank(lines(text@)) =~= nonblank(all)) by {
                        assert(all.take(ls@.len() as int) =~= all);
                    }
                    proof {
                        lemma_nonblank_prefix(all, i as int + 1);
                        assert(nonblank(all.take(i + 1)).last() == all[i as int]);
                        assert(nonblank(all)[nb0.len() as int] == all[i as int]);
                    }
                    return Err(DockerError::BadComposeJson);
                },
                Some(m) => m,
            };
            let status = match json_member(line.as_str(), "Status") {
                None => return Err(DockerError::BadComposeJson),
                Some(m) => m,
            };
            let cfg = match json_member(line.as_str(), "ConfigFiles") {
                None => return Err(DockerError::BadComposeJson),
                Some(m) => m,
            };
            let p = compose_project_from_members(name, status, cfg);
            list.push(p);
        }
        i = i + 1;
    }
    assert(all.take(ls@.len() as int) =~= all);
    Ok(list)
}

proof fn lemma_nonblank_prefix(ls: Seq<Seq<char>>, k: int)
    requires
        0 <= k <= ls.len(),
    ensures
        nonblank(ls.take(k)).len() <= nonblank(ls).len(),
        forall|j: int| 0 <= j < nonblank(ls.take(k)).len() ==> #[trigger] nonblank(ls)[j] == nonblank(ls.take(k))[j],
    decreases ls.len() - k,
{
    if k < ls.len() {
        lemma_nonblank_prefix(ls.drop_last(), k);
        assert(ls.drop_last().take(k) =~= ls.take(k));
    } else {
        assert(ls.take(k) =~= ls);
    }
}

/// What a package command returns when attempt `attempt` succeeded with
/// output `out`: a retry is noted under the output.
pub open spec fn retried_output(out: Seq<char>, attempt: nat) -> Seq<char> {
    if attempt > 1 {
        out + "\n（第 "@ + decimal(attempt) + " 次尝试成功）\n"@
    } else {
        out
    }
}

/// Number of attempts of a package command (a lock held by another
/// process makes apt and pacman fail at once; one retry clears most of it).
pub const PKG_ATTEMPTS: u32 = 2;

/// The output returned after attempt `attempt` of a package command
/// succeeded with `out`.
pub fn retry_success_output(out: &str, attempt: u32) -> (r: String)
    ensures
        r@ == retried_output(out@, attempt as nat),
{
    let mut v = chars_of(out);
    if attempt > 1 {
        push_str(&mut v, "\n（第 ");
        let d = decimal_of(attempt as u64);
        push_chars(&mut v, &d);
        push_str(&mut v, " 次尝试成功）\n");
    }
    string_of(&v)
}

} // verus!
