//! The traversal and render engine: walks a directory snapshot depth-first,
//! filters and sorts each directory's entries, and writes one decorated
//! line per visited entry.
use vstd::prelude::*;
use vstd::string::StringExecFns;
use crate::attributes::Attributes;
use crate::color::AnsiColor;
use crate::color::Color;
use crate::color::ColorChoice;
use crate::color::spec_color_enabled;
use crate::color::spec_fg_prefix;
use crate::color::spec_color_reset;
use crate::color::push_fg_prefix;
use crate::color::push_color_reset;
use crate::git::Git;
use crate::git::GitError;
use crate::git::Status;
use crate::git::StatusGetter;
use crate::git::TrackedStatus;
use crate::git::UntrackedStatus;
use crate::git::spec_tracked_of_bits;
use crate::git::spec_untracked_of_bits;
use crate::icons::spec_icon_for_path;
use crate::icons::for_path;
use crate::policy::Outcome;
use crate::policy::Overrides;
use crate::policy::NoOverrides;
use crate::policy::spec_resolve_skip;
use crate::policy::spec_resolve_icon;
use crate::policy::spec_resolve_color;
use crate::policy::spec_icon_outcome;
use crate::policy::resolve_skip;
use crate::policy::resolve_icon;
use crate::policy::resolve_color;
use crate::sorting::Sorting;
use crate::sorting::spec_sort_cmp;
use crate::text::spec_starts_with_dot;
use crate::text::starts_with_dot;
use crate::text::push_str_chars;
use crate::text::chars_to_string;
use core::cmp::Ordering;

verus! {

/// The default icon to display for files.
pub const DEFAULT_FILE_ICON: &'static str = "\u{f0214}";

/// The default icon to display when a file is an executable.
pub const DEFAULT_EXECUTABLE_ICON: &'static str = "\u{f070e}";

/// The default icon to display for directories.
pub const DEFAULT_DIRECTORY_ICON: &'static str = "\u{f024b}";

/// The default icon to display for symlinks.
pub const DEFAULT_SYMLINK_ICON: &'static str = "\u{cf481}";

/// The icon (padding) to use if there is no icon.
pub const EMPTY_ICON: &'static str = " ";

/// One filesystem entry of a directory snapshot: its final path component
/// (the root instead keeps the path as requested), its attributes where
/// classification succeeded, and its children where it is a readable
/// directory.
pub struct Entry {
    /// The entry's name. For the root this is the full requested path;
    /// every descendant holds only its final path component.
    pub name: String,
    /// The classified attributes; nothing when the entry was unreadable,
    /// which degrades the entry to an undecorated name.
    pub attributes: Option<Attributes>,
    /// The children of a readable directory, in any order; empty for
    /// files, symlinks, unreadable directories and depth never reached.
    pub children: Vec<Entry>,
}

/// The structural height of an entry, for termination of the traversal.
pub open spec fn entry_height(e: Entry) -> nat
    decreases e,
{
    1 + entries_height(e.children@)
}

/// The largest height among a sequence of entries.
pub open spec fn entries_height(s: Seq<Entry>) -> nat
    decreases s,
{
    if s.len() == 0 {
        0
    } else {
        let rest = entries_height(s.drop_last());
        let last = entry_height(s.last());
        if rest < last {
            last
        } else {
            rest
        }
    }
}

/// Every element of a sequence stays within the sequence's height.
pub proof fn lemma_entries_height_elem(s: Seq<Entry>, i: int)
    requires
        0 <= i < s.len(),
    ensures
        entry_height(s[i]) <= entries_height(s),
    decreases s.len(),
{
    if i == s.len() - 1 {
        assert(s.last() == s[i]);
    } else {
        assert(s.drop_last()[i] == s[i]);
        lemma_entries_height_elem(s.drop_last(), i);
    }
}

/// A sequence whose elements all come from another one stays within that
/// one's height.
pub proof fn lemma_entries_height_subset(s2: Seq<Entry>, s1: Seq<Entry>)
    requires
        forall|j: int| 0 <= j < s2.len() ==> s1.contains(#[trigger] s2[j]),
    ensures
        entries_height(s2) <= entries_height(s1),
    decreases s2.len(),
{
    if s2.len() > 0 {
        let d = s2.drop_last();
        assert forall|j: int| 0 <= j < d.len() implies s1.contains(#[trigger] d[j]) by {
            assert(d[j] == s2[j]);
        }
        lemma_entries_height_subset(d, s1);
        assert(s1.contains(s2[s2.len() - 1]));
        let i = choose|i: int| 0 <= i < s1.len() && s1[i] == s2[s2.len() - 1];
        lemma_entries_height_elem(s1, i);
        assert(s2.last() == s2[s2.len() - 1]);
    }
}

/// The characters printed while descending the hierarchy.
pub struct Charset {
    /// Written once in front of a child line, just before descending.
    pub depth: String,
    /// Written once per level of indentation in front of a child line.
    pub breadth: String,
}

impl Default for Charset {
    /// Two spaces per indentation level, and a dash in front of each entry.
    fn default() -> (r: Self)
        ensures
            r.depth@ == "- "@,
            r.breadth@ == "  "@,
    {
        Charset { depth: String::from_str("- "), breadth: String::from_str("  ") }
    }
}

/// What the override callables and the repository answered while one entry
/// and its subtree were rendered. A caller can surface override failures
/// from it; the render's contract is stated over it.
pub struct RenderLog {
    /// What the icon override answered for this entry.
    pub icon: Outcome<String>,
    /// What the color override answered for this entry.
    pub color: Outcome<Color>,
    /// What the tracked-status-color override answered.
    pub tracked_color: Outcome<Color>,
    /// What the untracked-status-color override answered.
    pub untracked_color: Outcome<Color>,
    /// What the repository answered for this entry's raw status bits;
    /// nothing when no repository is configured or the entry renders
    /// undecorated because its classification failed.
    pub bits: Option<Result<u32, GitError>>,
    /// What the repository answered when the parent asked whether this
    /// entry is ignored; nothing for the root or without a repository.
    pub ignored: Option<Result<bool, GitError>>,
    /// What the skip override answered for each child, in snapshot order.
    pub child_skip: Vec<Outcome<bool>>,
    /// What the repository answered for each child's ignore query, in
    /// snapshot order; used by the skip default.
    pub child_ignored: Vec<Option<Result<bool, GitError>>>,
    /// The logs of the visited children, in visit order.
    pub children: Vec<RenderLog>,
}

/// Whether an entry counts as hidden: a leading dot in its name, or the
/// platform's hidden attribute.
pub open spec fn spec_entry_hidden(e: Entry) -> bool {
    spec_starts_with_dot(e.name@) || match e.attributes {
        Some(a) => a.spec_is_hidden(),
        None => false,
    }
}

/// Whether an entry is a traversable directory; a symlink to a directory is
/// not.
pub open spec fn spec_entry_is_dir(e: Entry) -> bool {
    match e.attributes {
        Some(a) => a matches Attributes::Directory(_),
        None => false,
    }
}

/// Whether a recorded ignore answer says the entry is ignored; errors and
/// absence count as not ignored.
pub open spec fn spec_ignored_of(o: Option<Result<bool, GitError>>) -> bool {
    o matches Some(r) && r matches Ok(b) && b
}

/// The skip default of an entry: hidden, or ignored by version control.
pub open spec fn spec_skip_default(e: Entry, ignored: Option<Result<bool, GitError>>) -> bool {
    spec_entry_hidden(e) || spec_ignored_of(ignored)
}

/// The engine's default icon for an entry: the name rules first, then the
/// attribute kind; an unclassified entry gets blank padding and no
/// decoration.
pub open spec fn spec_default_icon(name: Seq<char>, attrs: Option<Attributes>) -> Seq<char> {
    match attrs {
        None => EMPTY_ICON@,
        Some(a) => match spec_icon_for_path(name) {
            Some(icon) => icon,
            None => match a {
                Attributes::Directory(_) => DEFAULT_DIRECTORY_ICON@,
                Attributes::Symlink(_) => DEFAULT_SYMLINK_ICON@,
                Attributes::File(f) => if f.executable {
                    DEFAULT_EXECUTABLE_ICON@
                } else {
                    match f.language {
                        Some(l) => match l.glyph {
                            Some(g) => g@,
                            None => DEFAULT_FILE_ICON@,
                        },
                        None => DEFAULT_FILE_ICON@,
                    }
                },
            },
        },
    }
}

/// The engine's default color for an entry: directories blue, symlinks
/// cyan, files by language color, else green for executables, else none;
/// an unclassified entry gets none.
pub open spec fn spec_default_color(attrs: Option<Attributes>) -> Option<Color> {
    match attrs {
        None => None,
        Some(a) => match a {
            Attributes::Directory(_) => Some(Color::Ansi(AnsiColor::Blue)),
            Attributes::Symlink(_) => Some(Color::Ansi(AnsiColor::Cyan)),
            Attributes::File(f) => match f.language {
                Some(l) => match l.rgb {
                    Some(rgb) => Some(Color::Rgb(rgb.0, rgb.1, rgb.2)),
                    None => if f.executable {
                        Some(Color::Ansi(AnsiColor::Green))
                    } else {
                        None
                    },
                },
                None => if f.executable {
                    Some(Color::Ansi(AnsiColor::Green))
                } else {
                    None
                },
            },
        },
    }
}

/// The fixed color of entries that version control ignores.
pub open spec fn spec_ignored_color() -> Color {
    Color::Ansi(AnsiColor::Black)
}

/// The default color of a tracked status marker.
pub open spec fn spec_tracked_default_color(s: Status) -> Color {
    match s {
        Status::Added => Color::Ansi(AnsiColor::Green),
        Status::Modified => Color::Ansi(AnsiColor::Yellow),
        Status::Removed => Color::Ansi(AnsiColor::Red),
        Status::Renamed => Color::Ansi(AnsiColor::Cyan),
    }
}

/// The default color of an untracked status marker.
pub open spec fn spec_untracked_default_color(s: Status) -> Color {
    match s {
        Status::Added => Color::Ansi(AnsiColor::BrightGreen),
        Status::Modified => Color::Ansi(AnsiColor::BrightYellow),
        Status::Removed => Color::Ansi(AnsiColor::BrightRed),
        Status::Renamed => Color::Ansi(AnsiColor::BrightCyan),
    }
}

/// Wraps a piece of text in color escapes when colors are on and a color is
/// chosen; otherwise the text stands alone.
pub open spec fn spec_colored(text: Seq<char>, color: Option<Color>, colorize: bool) -> Seq<char> {
    match color {
        Some(c) => if colorize {
            spec_fg_prefix(c) + text + spec_color_reset()
        } else {
            text
        },
        None => text,
    }
}

/// `s` repeated `n` times.
pub open spec fn spec_repeat(s: Seq<char>, n: nat) -> Seq<char>
    decreases n,
{
    if n == 0 {
        Seq::empty()
    } else {
        spec_repeat(s, (n - 1) as nat) + s
    }
}

} // verus!

verus! {

/// A surviving child paired with the recorded answer to its ignore query.
pub open spec fn spec_survivors(
    children: Seq<Entry>,
    skips: Seq<Outcome<bool>>,
    ignoreds: Seq<Option<Result<bool, GitError>>>,
) -> Seq<(Entry, Option<Result<bool, GitError>>)>
    decreases children.len(),
{
    if children.len() == 0 {
        Seq::empty()
    } else {
        let rest = spec_survivors(children.drop_last(), skips.drop_last(), ignoreds.drop_last());
        let e = children.last();
        let ig = ignoreds.last();
        if spec_resolve_skip(spec_skip_default(e, ig), skips.last()) {
            rest
        } else {
            rest.push((e, ig))
        }
    }
}

/// How the sorting policy orders two entries.
pub open spec fn spec_entry_cmp(s: Sorting, a: Entry, b: Entry) -> Ordering {
    spec_sort_cmp(s, a.name@, spec_entry_is_dir(a), b.name@, spec_entry_is_dir(b))
}

/// Inserts a survivor into an already sorted run, after every entry that
/// does not compare greater; entries that compare equal keep their order,
/// which makes the sort stable.
pub open spec fn spec_insert_survivor(
    s: Sorting,
    x: (Entry, Option<Result<bool, GitError>>),
    sorted: Seq<(Entry, Option<Result<bool, GitError>>)>,
) -> Seq<(Entry, Option<Result<bool, GitError>>)>
    decreases sorted.len(),
{
    if sorted.len() == 0 {
        seq![x]
    } else if spec_entry_cmp(s, sorted[0].0, x.0) == Ordering::Greater {
        seq![x] + sorted
    } else {
        seq![sorted[0]] + spec_insert_survivor(s, x, sorted.skip(1))
    }
}

/// Sorts survivors by inserting them one after the other, left to right.
pub open spec fn spec_sort_survivors(
    s: Sorting,
    items: Seq<(Entry, Option<Result<bool, GitError>>)>,
) -> Seq<(Entry, Option<Result<bool, GitError>>)>
    decreases items.len(),
{
    if items.len() == 0 {
        Seq::empty()
    } else {
        spec_insert_survivor(s, items.last(), spec_sort_survivors(s, items.drop_last()))
    }
}

/// Everything in an insertion result is the inserted survivor or one of the
/// run's own.
pub proof fn lemma_insert_survivor_contains(
    s: Sorting,
    x: (Entry, Option<Result<bool, GitError>>),
    sorted: Seq<(Entry, Option<Result<bool, GitError>>)>,
)
    ensures
        forall|j: int|
            0 <= j < spec_insert_survivor(s, x, sorted).len() ==> #[trigger] spec_insert_survivor(
                s,
                x,
                sorted,
            )[j] == x || sorted.contains(spec_insert_survivor(s, x, sorted)[j]),
    decreases sorted.len(),
{
    let r = spec_insert_survivor(s, x, sorted);
    if sorted.len() == 0 {
    } else if spec_entry_cmp(s, sorted[0].0, x.0) == Ordering::Greater {
        assert forall|j: int| 0 <= j < r.len() implies r[j] == x || sorted.contains(r[j]) by {
            if j > 0 {
                assert(r[j] == sorted[j - 1]);
            }
        }
    } else {
        lemma_insert_survivor_contains(s, x, sorted.skip(1));
        let inner = spec_insert_survivor(s, x, sorted.skip(1));
        assert forall|j: int| 0 <= j < r.len() implies r[j] == x || sorted.contains(r[j]) by {
            if j == 0 {
                assert(sorted.contains(sorted[0]));
            } else {
                assert(r[j] == inner[j - 1]);
                if inner[j - 1] != x {
                    assert(sorted.skip(1).contains(inner[j - 1]));
                    let i = choose|i: int|
                        0 <= i < sorted.skip(1).len() && sorted.skip(1)[i] == inner[j - 1];
                    assert(sorted[i + 1] == inner[j - 1]);
                }
            }
        }
    }
}

/// Everything in a sorted run comes from the unsorted items.
pub proof fn lemma_sort_survivors_contains(
    s: Sorting,
    items: Seq<(Entry, Option<Result<bool, GitError>>)>,
)
    ensures
        forall|j: int|
            0 <= j < spec_sort_survivors(s, items).len() ==> items.contains(
                #[trigger] spec_sort_survivors(s, items)[j],
            ),
    decreases items.len(),
{
    if items.len() > 0 {
        let d = items.drop_last();
        lemma_sort_survivors_contains(s, d);
        let inner = spec_sort_survivors(s, d);
        lemma_insert_survivor_contains(s, items.last(), inner);
        let r = spec_sort_survivors(s, items);
        assert forall|j: int| 0 <= j < r.len() implies items.contains(#[trigger] r[j]) by {
            if r[j] == items.last() {
                assert(items[items.len() - 1] == r[j]);
            } else {
                assert(inner.contains(r[j]));
                let i = choose|i: int| 0 <= i < inner.len() && inner[i] == r[j];
                assert(d.contains(inner[i]));
                let m = choose|m: int| 0 <= m < d.len() && d[m] == inner[i];
                assert(items[m] == r[j]);
            }
        }
    }
}

/// Every survivor is one of the children.
pub proof fn lemma_survivors_contains(
    children: Seq<Entry>,
    skips: Seq<Outcome<bool>>,
    ignoreds: Seq<Option<Result<bool, GitError>>>,
)
    ensures
        forall|j: int|
            0 <= j < spec_survivors(children, skips, ignoreds).len() ==> children.contains(
                #[trigger] spec_survivors(children, skips, ignoreds)[j].0,
            ),
    decreases children.len(),
{
    if children.len() > 0 {
        let cd = children.drop_last();
        lemma_survivors_contains(cd, skips.drop_last(), ignoreds.drop_last());
        let rest = spec_survivors(cd, skips.drop_last(), ignoreds.drop_last());
        let r = spec_survivors(children, skips, ignoreds);
        assert forall|j: int| 0 <= j < r.len() implies children.contains(#[trigger] r[j].0) by {
            if j < rest.len() {
                assert(r[j] == rest[j]);
                assert(cd.contains(rest[j].0));
                let i = choose|i: int| 0 <= i < cd.len() && cd[i] == rest[j].0;
                assert(children[i] == rest[j].0);
            } else {
                assert(r[j].0 == children.last());
                assert(children[children.len() - 1] == r[j].0);
            }
        }
    }
}

/// Inserting at the first position whose entry compares greater is what
/// [`spec_insert_survivor`] does.
pub proof fn lemma_insert_survivor_at(
    s: Sorting,
    x: (Entry, Option<Result<bool, GitError>>),
    sorted: Seq<(Entry, Option<Result<bool, GitError>>)>,
    k: int,
)
    requires
        0 <= k <= sorted.len(),
        forall|i: int| 0 <= i < k ==> spec_entry_cmp(s, #[trigger] sorted[i].0, x.0) != Ordering::Greater,
        k < sorted.len() ==> spec_entry_cmp(s, sorted[k].0, x.0) == Ordering::Greater,
    ensures
        spec_insert_survivor(s, x, sorted) == sorted.take(k) + seq![x] + sorted.skip(k),
    decreases sorted.len(),
{
    if k == 0 {
        if sorted.len() == 0 {
            assert(spec_insert_survivor(s, x, sorted) =~= sorted.take(0) + seq![x] + sorted.skip(
                0,
            ));
        } else {
            assert(spec_insert_survivor(s, x, sorted) =~= sorted.take(0) + seq![x] + sorted.skip(
                0,
            ));
        }
    } else {
        let tail = sorted.skip(1);
        assert forall|i: int| 0 <= i < k - 1 implies spec_entry_cmp(s, #[trigger] tail[i].0, x.0)
            != Ordering::Greater by {
            assert(tail[i] == sorted[i + 1]);
        }
        if k - 1 < tail.len() {
            assert(tail[k - 1] == sorted[k]);
        }
        lemma_insert_survivor_at(s, x, tail, k - 1);
        assert(spec_insert_survivor(s, x, sorted) == seq![sorted[0]] + (tail.take(k - 1) + seq![x]
            + tail.skip(k - 1)));
        assert(seq![sorted[0]] + (tail.take(k - 1) + seq![x] + tail.skip(k - 1)) =~= sorted.take(k)
            + seq![x] + sorted.skip(k));
    }
}

} // verus!

verus! {

/// The entries of a survivor sequence.
pub open spec fn survivor_entries(items: Seq<(Entry, Option<Result<bool, GitError>>)>) -> Seq<
    Entry,
> {
    items.map_values(|x: (Entry, Option<Result<bool, GitError>>)| x.0)
}

/// One rendered status cell: the marker of a status in its resolved color,
/// or one blank space where there is no status.
pub open spec fn spec_status_cell(
    st: Option<Status>,
    of_index: bool,
    o: Outcome<Color>,
    colorize: bool,
) -> Seq<char> {
    match st {
        None => " "@,
        Some(s0) => {
            let d = if of_index {
                spec_tracked_default_color(s0)
            } else {
                spec_untracked_default_color(s0)
            };
            spec_colored(
                crate::git::status::spec_status_marker(s0),
                spec_resolve_color(Some(d), o),
                colorize,
            )
        },
    }
}

/// The two status cells of a line: the untracked kind, then the tracked
/// kind; nothing at all without a repository, and blank cells where the
/// status query failed or reported nothing.
pub open spec fn spec_status_cells_parts(
    bits: Option<Result<u32, GitError>>,
    unt_o: Outcome<Color>,
    trk_o: Outcome<Color>,
    colorize: bool,
) -> Seq<char> {
    match bits {
        None => Seq::empty(),
        Some(r) => {
            let bo = match r {
                Ok(b) => Some(b),
                Err(_) => None,
            };
            let unt = match bo {
                Some(b) => spec_untracked_of_bits(b),
                None => None,
            };
            let trk = match bo {
                Some(b) => spec_tracked_of_bits(b),
                None => None,
            };
            spec_status_cell(unt, false, unt_o, colorize) + spec_status_cell(
                trk,
                true,
                trk_o,
                colorize,
            )
        },
    }
}

/// The status cells a render log records.
pub open spec fn spec_status_cells(log: RenderLog, colorize: bool) -> Seq<char> {
    spec_status_cells_parts(log.bits, log.untracked_color, log.tracked_color, colorize)
}

/// The rendering policy: everything the renderer consults besides the
/// snapshot, the repository and the override callables.
pub struct RenderPolicy {
    /// Go only this many levels deep; unlimited when absent.
    pub max_level: Option<usize>,
    /// The characters printed while descending.
    pub charset: Charset,
    /// Whether color escape sequences are emitted.
    pub colorize: bool,
    /// How the entries of a directory are ordered.
    pub sorting: Sorting,
}

/// The one line an entry produces, without indentation and newline: two
/// status cells when a repository is configured, the resolved icon, one
/// separator space, and the name, wrapped in the resolved color; an entry
/// that version control ignores is wrapped in the fixed ignored color
/// instead. An entry whose classification failed gets no decoration at
/// all: its line is the bare name, so an unreadable root falls back to the
/// literal requested path.
pub open spec fn spec_line_parts(
    p: RenderPolicy,
    e: Entry,
    icon_o: Outcome<String>,
    color_o: Outcome<Color>,
    unt_o: Outcome<Color>,
    trk_o: Outcome<Color>,
    bits: Option<Result<u32, GitError>>,
    ignored_in: Option<Result<bool, GitError>>,
    is_root: bool,
) -> Seq<char> {
    if e.attributes is None {
        e.name@
    } else {
        let icon = spec_resolve_icon(
            spec_default_icon(e.name@, e.attributes),
            spec_icon_outcome(icon_o),
        );
        let ignored = !is_root && spec_ignored_of(ignored_in);
        let color = if ignored {
            Some(spec_ignored_color())
        } else {
            spec_resolve_color(spec_default_color(e.attributes), color_o)
        };
        spec_status_cells_parts(bits, unt_o, trk_o, p.colorize) + spec_colored(
            icon + " "@ + e.name@,
            color,
            p.colorize,
        )
    }
}

/// The line a render log records for an entry.
pub open spec fn spec_line(p: RenderPolicy, e: Entry, log: RenderLog, is_root: bool) -> Seq<char> {
    spec_line_parts(
        p,
        e,
        log.icon,
        log.color,
        log.untracked_color,
        log.tracked_color,
        log.bits,
        log.ignored,
        is_root,
    )
}

/// What rendering an entry at a depth appends to the output: its own line,
/// and, for a directory within the depth limit, its surviving children in
/// sorted order, each behind its indentation.
pub open spec fn spec_render_entry(
    p: RenderPolicy,
    e: Entry,
    log: RenderLog,
    depth: nat,
    is_root: bool,
) -> Seq<char>
    decreases entry_height(e), 0nat,
{
    let line = spec_line(p, e, log, is_root) + "\n"@;
    if !spec_entry_is_dir(e) {
        line
    } else if p.max_level matches Some(m) && depth >= m {
        line
    } else {
        let survivors = spec_survivors(e.children@, log.child_skip@, log.child_ignored@);
        let sorted = spec_sort_survivors(p.sorting, survivors);
        proof {
            lemma_survivors_contains(e.children@, log.child_skip@, log.child_ignored@);
            lemma_sort_survivors_contains(p.sorting, survivors);
            assert forall|j: int|
                0 <= j < survivor_entries(sorted).len() implies e.children@.contains(
                #[trigger] survivor_entries(sorted)[j],
            ) by {
                assert(survivor_entries(sorted)[j] == sorted[j].0);
                assert(survivors.contains(sorted[j]));
                let i = choose|i: int| 0 <= i < survivors.len() && survivors[i] == sorted[j];
                assert(e.children@.contains(survivors[i].0));
            }
            lemma_entries_height_subset(survivor_entries(sorted), e.children@);
            assert(entries_height(survivor_entries(sorted)) < entry_height(e));
        }
        line + spec_render_list(p, sorted, log.children@, depth)
    }
}

/// What rendering a run of sorted survivors appends: for each one, the
/// parent's indentation, the descent glyph, and the survivor's subtree one
/// level deeper.
pub open spec fn spec_render_list(
    p: RenderPolicy,
    items: Seq<(Entry, Option<Result<bool, GitError>>)>,
    logs: Seq<RenderLog>,
    parent_depth: nat,
) -> Seq<char>
    decreases entries_height(survivor_entries(items)), items.len(),
{
    if items.len() == 0 {
        Seq::empty()
    } else {
        proof {
            assert(survivor_entries(items.drop_last()) =~= survivor_entries(items).drop_last());
            assert(survivor_entries(items).last() == items.last().0);
        }
        spec_render_list(p, items.drop_last(), logs.drop_last(), parent_depth) + spec_repeat(
            p.charset.breadth@,
            parent_depth,
        ) + p.charset.depth@ + spec_render_entry(
            p,
            items.last().0,
            logs.last(),
            parent_depth + 1,
            false,
        )
    }
}

} // verus!

verus! {

/// Checks whether an entry is a traversable directory.
fn entry_is_dir(e: &Entry) -> (r: bool)
    ensures
        r == spec_entry_is_dir(*e),
{
    match &e.attributes {
        Some(a) => a.is_directory(),
        None => false,
    }
}

/// Checks whether an entry counts as hidden.
fn entry_hidden(e: &Entry) -> (r: bool)
    ensures
        r == spec_entry_hidden(*e),
{
    if starts_with_dot(e.name.as_str()) {
        true
    } else {
        match &e.attributes {
            Some(a) => a.is_hidden(),
            None => false,
        }
    }
}

/// Computes the engine's default icon for an entry.
fn default_icon(e: &Entry) -> (r: String)
    ensures
        r@ == spec_default_icon(e.name@, e.attributes),
{
    match &e.attributes {
        None => String::from_str(EMPTY_ICON),
        Some(a) => match for_path(e.name.as_str()) {
            Some(icon) => String::from_str(icon),
            None => match a {
                Attributes::Directory(_) => String::from_str(DEFAULT_DIRECTORY_ICON),
                Attributes::Symlink(_) => String::from_str(DEFAULT_SYMLINK_ICON),
                Attributes::File(f) => if f.executable {
                    String::from_str(DEFAULT_EXECUTABLE_ICON)
                } else {
                    match &f.language {
                        Some(l) => match &l.glyph {
                            Some(g) => g.clone(),
                            None => String::from_str(DEFAULT_FILE_ICON),
                        },
                        None => String::from_str(DEFAULT_FILE_ICON),
                    }
                },
            },
        },
    }
}

/// Computes the engine's default color for an entry.
fn default_color(e: &Entry) -> (r: Option<Color>)
    ensures
        r == spec_default_color(e.attributes),
{
    match &e.attributes {
        None => None,
        Some(a) => match a {
            Attributes::Directory(_) => Some(Color::Ansi(AnsiColor::Blue)),
            Attributes::Symlink(_) => Some(Color::Ansi(AnsiColor::Cyan)),
            Attributes::File(f) => match &f.language {
                Some(l) => match &l.rgb {
                    Some(rgb) => Some(Color::Rgb(rgb.0, rgb.1, rgb.2)),
                    None => if f.executable {
                        Some(Color::Ansi(AnsiColor::Green))
                    } else {
                        None
                    },
                },
                None => if f.executable {
                    Some(Color::Ansi(AnsiColor::Green))
                } else {
                    None
                },
            },
        },
    }
}

/// The default color of a tracked status marker.
fn tracked_default_color(s: Status) -> (r: Color)
    ensures
        r == spec_tracked_default_color(s),
{
    match s {
        Status::Added => Color::Ansi(AnsiColor::Green),
        Status::Modified => Color::Ansi(AnsiColor::Yellow),
        Status::Removed => Color::Ansi(AnsiColor::Red),
        Status::Renamed => Color::Ansi(AnsiColor::Cyan),
    }
}

/// The default color of an untracked status marker.
fn untracked_default_color(s: Status) -> (r: Color)
    ensures
        r == spec_untracked_default_color(s),
{
    match s {
        Status::Added => Color::Ansi(AnsiColor::BrightGreen),
        Status::Modified => Color::Ansi(AnsiColor::BrightYellow),
        Status::Removed => Color::Ansi(AnsiColor::BrightRed),
        Status::Renamed => Color::Ansi(AnsiColor::BrightCyan),
    }
}

/// Appends text wrapped in color escapes when colors are on and a color is
/// chosen.
fn push_colored(out: &mut Vec<char>, text: &str, color: Option<Color>, colorize: bool)
    ensures
        final(out)@ == old(out)@ + spec_colored(text@, color, colorize),
{
    match color {
        Some(c) => {
            if colorize {
                push_fg_prefix(out, &c);
                push_str_chars(out, text);
                push_color_reset(out);
                assert(out@ =~= old(out)@ + spec_colored(text@, color, colorize));
            } else {
                push_str_chars(out, text);
            }
        },
        None => {
            push_str_chars(out, text);
        },
    }
}

/// Appends one status cell.
fn push_status_cell(
    out: &mut Vec<char>,
    st: Option<Status>,
    of_index: bool,
    o: &Outcome<Color>,
    colorize: bool,
)
    ensures
        final(out)@ == old(out)@ + spec_status_cell(st, of_index, *o, colorize),
{
    match st {
        None => {
            push_str_chars(out, " ");
        },
        Some(s0) => {
            let d = if of_index {
                tracked_default_color(s0)
            } else {
                untracked_default_color(s0)
            };
            let c = resolve_color(Some(d), o);
            push_colored(out, s0.as_str(), c, colorize);
        },
    }
}

/// Appends `s` repeated `n` times.
fn push_repeat(out: &mut Vec<char>, s: &str, n: usize)
    ensures
        final(out)@ == old(out)@ + spec_repeat(s@, n as nat),
{
    let mut i: usize = 0;
    while i < n
        invariant
            i <= n,
            out@ == old(out)@ + spec_repeat(s@, i as nat),
        decreases n - i,
    {
        push_str_chars(out, s);
        i = i + 1;
        assert(out@ =~= old(out)@ + spec_repeat(s@, i as nat));
    }
}

/// The repository key of a child: the parent's key extended by one path
/// component, with forward separators and no leading separator.
pub open spec fn spec_child_key(parent: Seq<char>, name: Seq<char>) -> Seq<char> {
    if parent.len() == 0 {
        name
    } else {
        parent + "/"@ + name
    }
}

/// Builds the repository key of a child.
fn child_key(parent: &String, name: &str) -> (r: String)
    ensures
        r@ == spec_child_key(parent@, name@),
{
    if parent.as_str().is_empty() {
        String::from_str(name)
    } else {
        let mut k = parent.clone();
        k.append("/");
        k.append(name);
        k
    }
}

} // verus!

verus! {

/// The survivors a vector of references stands for.
pub open spec fn deref_survivors<'a>(
    s: Seq<(&'a Entry, Option<Result<bool, GitError>>)>,
) -> Seq<(Entry, Option<Result<bool, GitError>>)> {
    s.map_values(|p: (&'a Entry, Option<Result<bool, GitError>>)| (*p.0, p.1))
}

/// Compares two entries by the sorting policy.
fn entry_cmp(s: &Sorting, a: &Entry, b: &Entry) -> (r: Ordering)
    ensures
        r == spec_entry_cmp(*s, *a, *b),
{
    let ad = entry_is_dir(a);
    let bd = entry_is_dir(b);
    s.cmp(a.name.as_str(), ad, b.name.as_str(), bd)
}

/// Sorts survivors stably by the sorting policy, one insertion at a time.
fn sort_survivors<'a>(
    s: &Sorting,
    items: Vec<(&'a Entry, Option<Result<bool, GitError>>)>,
) -> (r: Vec<(&'a Entry, Option<Result<bool, GitError>>)>)
    ensures
        deref_survivors(r@) == spec_sort_survivors(*s, deref_survivors(items@)),
{
    let n = items.len();
    let mut out: Vec<(&'a Entry, Option<Result<bool, GitError>>)> = Vec::new();
    proof {
        assert(deref_survivors(items@.take(0)) =~= Seq::empty());
        assert(deref_survivors(out@) =~= spec_sort_survivors(*s, deref_survivors(items@.take(0))));
    }
    let mut i: usize = 0;
    while i < n
        invariant
            i <= n,
            n == items@.len(),
            deref_survivors(out@) == spec_sort_survivors(*s, deref_survivors(items@.take(i as int))),
        decreases n - i,
    {
        let item = items[i];
        let m = out.len();
        let mut k: usize = 0;
        loop
            invariant
                k <= m,
                m == out@.len(),
                forall|t: int|
                    0 <= t < k ==> spec_entry_cmp(*s, #[trigger] deref_survivors(out@)[t].0, *item.0)
                        != Ordering::Greater,
            ensures
                k <= m,
                m == out@.len(),
                forall|t: int|
                    0 <= t < k ==> spec_entry_cmp(*s, #[trigger] deref_survivors(out@)[t].0, *item.0)
                        != Ordering::Greater,
                k < m ==> spec_entry_cmp(*s, deref_survivors(out@)[k as int].0, *item.0)
                    == Ordering::Greater,
            decreases m - k,
        {
            if k == m {
                break;
            }
            let c = entry_cmp(s, out[k].0, item.0);
            proof {
                assert(deref_survivors(out@)[k as int].0 == *out@[k as int].0);
            }
            if let Ordering::Greater = c {
                break;
            }
            k = k + 1;
        }
        let ghost sorted_view = deref_survivors(out@);
        proof {
            lemma_insert_survivor_at(*s, (*item.0, item.1), sorted_view, k as int);
        }
        out.insert(k, item);
        proof {
            assert(deref_survivors(out@) =~= sorted_view.take(k as int) + seq![(*item.0, item.1)]
                + sorted_view.skip(k as int));
            assert(deref_survivors(items@.take(i + 1)).drop_last() =~= deref_survivors(
                items@.take(i as int),
            ));
            assert(deref_survivors(items@.take(i + 1)).last() == (*item.0, item.1));
            assert(deref_survivors(items@.take(i + 1)).len() == i + 1);
            assert(deref_survivors(out@) == spec_sort_survivors(
                *s,
                deref_survivors(items@.take(i + 1)),
            ));
        }
        i = i + 1;
    }
    proof {
        assert(items@.take(n as int) =~= items@);
    }
    out
}

} // verus!

verus! {

/// Whether a countdown of remaining levels agrees with the depth limit at
/// the current depth.
pub open spec fn spec_remaining_ok(max_level: Option<usize>, depth: nat, remaining: Option<usize>) -> bool {
    match max_level {
        None => remaining is None,
        Some(m) => remaining matches Some(r) && r == (if m >= depth {
            (m - depth) as usize
        } else {
            0usize
        }),
    }
}

/// A pure render log: no repository was configured and no override was
/// configured, so every observation is the absent one. A pure log is a
/// function of the snapshot alone, which makes rendering repeatable.
pub open spec fn spec_log_pure(p: RenderPolicy, e: Entry, log: RenderLog, depth: nat) -> bool
    decreases entry_height(e), 0nat,
{
    &&& log.icon is Absent
    &&& log.color is Absent
    &&& log.tracked_color is Absent
    &&& log.untracked_color is Absent
    &&& log.bits is None
    &&& log.ignored is None
    &&& if !spec_entry_is_dir(e) || (p.max_level matches Some(m) && depth >= m) {
        true
    } else {
        &&& log.child_skip@.len() == e.children@.len()
        &&& log.child_ignored@.len() == e.children@.len()
        &&& (forall|k: int|
            0 <= k < e.children@.len() ==> (#[trigger] log.child_skip@[k]) is Absent)
        &&& (forall|k: int|
            0 <= k < e.children@.len() ==> (#[trigger] log.child_ignored@[k]) is None)
        &&& {
            let sv = spec_sort_survivors(
                p.sorting,
                spec_survivors(e.children@, log.child_skip@, log.child_ignored@),
            );
            proof {
                lemma_survivors_contains(e.children@, log.child_skip@, log.child_ignored@);
                lemma_sort_survivors_contains(
                    p.sorting,
                    spec_survivors(e.children@, log.child_skip@, log.child_ignored@),
                );
                let pv = spec_survivors(e.children@, log.child_skip@, log.child_ignored@);
                assert forall|t: int|
                    0 <= t < survivor_entries(sv).len() implies e.children@.contains(
                    #[trigger] survivor_entries(sv)[t],
                ) by {
                    assert(survivor_entries(sv)[t] == sv[t].0);
                    assert(pv.contains(sv[t]));
                    let w = choose|w: int| 0 <= w < pv.len() && pv[w] == sv[t];
                    assert(e.children@.contains(pv[w].0));
                }
                lemma_entries_height_subset(survivor_entries(sv), e.children@);
            }
            spec_log_pure_list(p, sv, log.children@, depth)
        }
    }
}

/// Pointwise purity of the child logs along a run of survivors.
pub open spec fn spec_log_pure_list(
    p: RenderPolicy,
    items: Seq<(Entry, Option<Result<bool, GitError>>)>,
    logs: Seq<RenderLog>,
    parent_depth: nat,
) -> bool
    decreases entries_height(survivor_entries(items)), items.len(),
{
    &&& logs.len() == items.len()
    &&& (items.len() == 0 || {
        proof {
            assert(survivor_entries(items.drop_last()) =~= survivor_entries(items).drop_last());
            assert(survivor_entries(items).last() == items.last().0);
        }
        spec_log_pure_list(p, items.drop_last(), logs.drop_last(), parent_depth)
            && spec_log_pure(p, items.last().0, logs.last(), parent_depth + 1)
    })
}

/// Every survivor pair is one of the children paired with its own recorded
/// ignore answer.
pub proof fn lemma_survivors_pairs(
    children: Seq<Entry>,
    skips: Seq<Outcome<bool>>,
    ignoreds: Seq<Option<Result<bool, GitError>>>,
)
    requires
        ignoreds.len() == children.len(),
    ensures
        forall|j: int|
            0 <= j < spec_survivors(children, skips, ignoreds).len() ==> exists|i: int|
                0 <= i < children.len() && #[trigger] spec_survivors(children, skips, ignoreds)[j]
                    == (children[i], ignoreds[i]),
    decreases children.len(),
{
    if children.len() > 0 {
        let cd = children.drop_last();
        let sd = skips.drop_last();
        let gd = ignoreds.drop_last();
        lemma_survivors_pairs(cd, sd, gd);
        let rest = spec_survivors(cd, sd, gd);
        let r = spec_survivors(children, skips, ignoreds);
        assert forall|j: int| 0 <= j < r.len() implies exists|i: int|
            0 <= i < children.len() && #[trigger] r[j] == (children[i], ignoreds[i]) by {
            if j < rest.len() {
                assert(r[j] == rest[j]);
                let i = choose|i: int| 0 <= i < cd.len() && rest[j] == (cd[i], gd[i]);
                assert(children[i] == cd[i] && ignoreds[i] == gd[i]);
                assert(r[j] == (children[i], ignoreds[i]));
            } else {
                assert(r[j] == (children.last(), ignoreds.last()));
                assert(r[j] == (children[children.len() - 1], ignoreds[children.len() - 1]));
            }
        }
    }
}

/// Generates a tree rendering of a directory snapshot.
pub struct Tree<'g> {
    /// Everything the renderer consults besides snapshot, repository and
    /// overrides.
    pub policy: RenderPolicy,
    /// The optional git overlay of the rendered directory.
    pub git: Option<&'g Git>,
    /// The repository-relative key of the root entry; empty at the
    /// repository root.
    pub root_key: String,
}

/// Writes the two status cells and reports the two override consultations:
/// the untracked one, then the tracked one; a status color override is only
/// consulted where its status is present.
fn push_status_cells<O: Overrides>(
    out: &mut Vec<char>,
    bits: &Option<Result<u32, GitError>>,
    o: Option<&O>,
    colorize: bool,
) -> (r: (Outcome<Color>, Outcome<Color>))
    ensures
        final(out)@ == old(out)@ + spec_status_cells_parts(*bits, r.0, r.1, colorize),
        o is None ==> r.0 is Absent && r.1 is Absent,
{
    let mut unt_o: Outcome<Color> = Outcome::Absent;
    let mut trk_o: Outcome<Color> = Outcome::Absent;
    match bits {
        None => {},
        Some(r) => {
            let bopt: Option<u32> = match r {
                Ok(b) => Some(*b),
                Err(_) => None,
            };
            let unt: Option<Status> = match bopt {
                Some(b) => UntrackedStatus::from_bits(b),
                None => None,
            };
            let trk: Option<Status> = match bopt {
                Some(b) => TrackedStatus::from_bits(b),
                None => None,
            };
            if let Some(ov) = o {
                if let Some(st) = unt {
                    unt_o = ov.untracked_status_color(st, Some(untracked_default_color(st)));
                }
                if let Some(st) = trk {
                    trk_o = ov.tracked_status_color(st, Some(tracked_default_color(st)));
                }
            }
            push_status_cell(out, unt, false, &unt_o, colorize);
            push_status_cell(out, trk, true, &trk_o, colorize);
        },
    }
    proof {
        assert(out@ =~= old(out)@ + spec_status_cells_parts(*bits, unt_o, trk_o, colorize));
    }
    (unt_o, trk_o)
}

impl<'g> Tree<'g> {
    /// Renders the snapshot into one string, consulting the overrides and
    /// the repository along the way. The returned log records what they
    /// answered, line for line what the output was built from; override
    /// failures can be surfaced from it. Every render terminates: the
    /// recursion, of this function and of its specification alike, is
    /// checked to decrease on the structure of the snapshot, so a finite
    /// snapshot yields finite output even without a depth limit.
    pub fn write<O: Overrides>(&self, root: &Entry, overrides: &O) -> (r: (String, RenderLog))
        ensures
            r.0@ == spec_render_entry(self.policy, *root, r.1, 0, true),
    {
        let mut out: Vec<char> = Vec::new();
        let prefix = String::new();
        let remaining: Option<usize> = match self.policy.max_level {
            None => None,
            Some(m) => Some(m),
        };
        proof {
            assert(prefix@ =~= spec_repeat(self.policy.charset.breadth@, 0));
        }
        let log = self.render_entry(
            &mut out,
            root,
            Some(overrides),
            &self.root_key,
            None,
            &prefix,
            remaining,
            Ghost(0nat),
            true,
        );
        (chars_to_string(&out), log)
    }

    /// Renders the snapshot with engine defaults only: no overrides are
    /// consulted. Without a repository the recorded log is pure, so the
    /// output is a function of the snapshot and the policy alone and a
    /// second render of the same snapshot is byte-identical.
    pub fn write_default(&self, root: &Entry) -> (r: (String, RenderLog))
        ensures
            r.0@ == spec_render_entry(self.policy, *root, r.1, 0, true),
            self.git is None ==> spec_log_pure(self.policy, *root, r.1, 0),
    {
        let mut out: Vec<char> = Vec::new();
        let prefix = String::new();
        let remaining: Option<usize> = match self.policy.max_level {
            None => None,
            Some(m) => Some(m),
        };
        proof {
            assert(prefix@ =~= spec_repeat(self.policy.charset.breadth@, 0));
        }
        let log = self.render_entry::<NoOverrides>(
            &mut out,
            root,
            None,
            &self.root_key,
            None,
            &prefix,
            remaining,
            Ghost(0nat),
            true,
        );
        (chars_to_string(&out), log)
    }

    /// Collects the surviving children of a directory, recording per child
    /// what the repository and the skip override answered.
    fn collect_survivors<'a, O: Overrides>(
        &self,
        children: &'a Vec<Entry>,
        o: Option<&O>,
        key: &String,
    ) -> (r: (
        Vec<(&'a Entry, Option<Result<bool, GitError>>)>,
        Vec<Outcome<bool>>,
        Vec<Option<Result<bool, GitError>>>,
    ))
        ensures
            r.1@.len() == children@.len(),
            r.2@.len() == children@.len(),
            deref_survivors(r.0@) == spec_survivors(children@, r.1@, r.2@),
            o is None ==> (forall|k: int|
                0 <= k < children@.len() ==> (#[trigger] r.1@[k]) is Absent),
            self.git is None ==> (forall|k: int|
                0 <= k < children@.len() ==> (#[trigger] r.2@[k]) is None),
    {
        let n = children.len();
        let mut skips: Vec<Outcome<bool>> = Vec::new();
        let mut igns: Vec<Option<Result<bool, GitError>>> = Vec::new();
        let mut pending: Vec<(&'a Entry, Option<Result<bool, GitError>>)> = Vec::new();
        proof {
            assert(deref_survivors(pending@) =~= spec_survivors(children@.take(0), skips@, igns@));
        }
        let mut i: usize = 0;
        while i < n
            invariant
                i <= n,
                n == children@.len(),
                skips@.len() == i as nat,
                igns@.len() == i as nat,
                deref_survivors(pending@) == spec_survivors(children@.take(i as int), skips@, igns@),
                o is None ==> (forall|k: int| 0 <= k < i ==> (#[trigger] skips@[k]) is Absent),
                self.git is None ==> (forall|k: int| 0 <= k < i ==> (#[trigger] igns@[k]) is None),
            decreases n - i,
        {
            let child = &children[i];
            let ckey = child_key(key, child.name.as_str());
            let ig: Option<Result<bool, GitError>> = match self.git {
                None => None,
                Some(g) => Some(g.is_ignored(ckey.as_str())),
            };
            let hidden = entry_hidden(child);
            let ig_flag: bool = match &ig {
                Some(r) => match r {
                    Ok(b) => *b,
                    Err(_) => false,
                },
                None => false,
            };
            let dskip = hidden || ig_flag;
            proof {
                assert(dskip == spec_skip_default(*child, ig));
            }
            let sk = match o {
                Some(ov) => ov.skip(child.name.as_str(), &child.attributes, dskip),
                None => Outcome::Absent,
            };
            let keep = !resolve_skip(dskip, &sk);
            let ghost old_pending = deref_survivors(pending@);
            let ghost old_skips = skips@;
            let ghost old_igns = igns@;
            if keep {
                pending.push((child, ig));
            }
            skips.push(sk);
            igns.push(ig);
            proof {
                let cs = children@.take(i + 1);
                assert(cs.drop_last() =~= children@.take(i as int));
                assert(cs.last() == children@[i as int]);
                assert(skips@.drop_last() =~= old_skips);
                assert(igns@.drop_last() =~= old_igns);
                if keep {
                    assert(deref_survivors(pending@) =~= old_pending.push((*child, ig)));
                }
                assert(deref_survivors(pending@) =~= spec_survivors(cs, skips@, igns@));
            }
            i = i + 1;
        }
        proof {
            assert(children@.take(n as int) =~= children@);
        }
        (pending, skips, igns)
    }

    /// Emits one entry's line, newline included, and reports the override
    /// consultations it made.
    fn emit_line<O: Overrides>(
        &self,
        out: &mut Vec<char>,
        e: &Entry,
        o: Option<&O>,
        bits: &Option<Result<u32, GitError>>,
        ignored_in: Option<Result<bool, GitError>>,
        is_root: bool,
    ) -> (r: (Outcome<String>, Outcome<Color>, Outcome<Color>, Outcome<Color>))
        ensures
            final(out)@ == old(out)@ + spec_line_parts(
                self.policy,
                *e,
                r.0,
                r.1,
                r.2,
                r.3,
                *bits,
                ignored_in,
                is_root,
            ) + "\n"@,
            o is None ==> r.0 is Absent && r.1 is Absent && r.2 is Absent && r.3 is Absent,
    {
        if e.attributes.is_none() {
            push_str_chars(out, e.name.as_str());
            push_str_chars(out, "\n");
            proof {
                assert(out@ =~= old(out)@ + spec_line_parts(
                    self.policy,
                    *e,
                    Outcome::Absent,
                    Outcome::Absent,
                    Outcome::Absent,
                    Outcome::Absent,
                    *bits,
                    ignored_in,
                    is_root,
                ) + "\n"@);
            }
            return (Outcome::Absent, Outcome::Absent, Outcome::Absent, Outcome::Absent);
        }
        let colorize = self.policy.colorize;
        let cells = push_status_cells(out, bits, o, colorize);
        let unt_o = cells.0;
        let trk_o = cells.1;
        let dicon = default_icon(e);
        let icon_o = match o {
            Some(ov) => ov.icon(e.name.as_str(), &e.attributes, dicon.as_str()),
            None => Outcome::Absent,
        };
        let icon = resolve_icon(dicon.as_str(), &icon_o);
        let dcolor = default_color(e);
        let color_o = match o {
            Some(ov) => ov.color(e.name.as_str(), &e.attributes, dcolor),
            None => Outcome::Absent,
        };
        let ignored_flag: bool = if is_root {
            false
        } else {
            match &ignored_in {
                Some(r) => match r {
                    Ok(b) => *b,
                    Err(_) => false,
                },
                None => false,
            }
        };
        let color = if ignored_flag {
            Some(Color::Ansi(AnsiColor::Black))
        } else {
            resolve_color(dcolor, &color_o)
        };
        let mut text = icon;
        text.append(" ");
        text.append(e.name.as_str());
        push_colored(out, text.as_str(), color, colorize);
        push_str_chars(out, "\n");
        proof {
            assert(out@ =~= old(out)@ + spec_line_parts(
                self.policy,
                *e,
                icon_o,
                color_o,
                unt_o,
                trk_o,
                *bits,
                ignored_in,
                is_root,
            ) + "\n"@);
        }
        (icon_o, color_o, unt_o, trk_o)
    }

    /// Renders the sorted surviving children of an entry, one after the
    /// other, each behind its indentation.
    #[verifier::loop_isolation(false)]
    fn render_children<'a, O: Overrides>(
        &self,
        out: &mut Vec<char>,
        sorted: Vec<(&'a Entry, Option<Result<bool, GitError>>)>,
        o: Option<&O>,
        key: &String,
        prefix: &String,
        next_prefix: &String,
        next_remaining: Option<usize>,
        Ghost(depth): Ghost<nat>,
    ) -> (logs: Vec<RenderLog>)
        requires
            prefix@ == spec_repeat(self.policy.charset.breadth@, depth),
            next_prefix@ == spec_repeat(self.policy.charset.breadth@, depth + 1),
            spec_remaining_ok(self.policy.max_level, depth + 1, next_remaining),
            self.git is None ==> (forall|k: int|
                0 <= k < sorted@.len() ==> (#[trigger] deref_survivors(sorted@)[k].1) is None),
        ensures
            final(out)@ == old(out)@ + spec_render_list(
                self.policy,
                deref_survivors(sorted@),
                logs@,
                depth,
            ),
            o is None && self.git is None ==> spec_log_pure_list(
                self.policy,
                deref_survivors(sorted@),
                logs@,
                depth,
            ),
        decreases entries_height(survivor_entries(deref_survivors(sorted@))), sorted@.len(),
    {
        let ghost sorted_view = deref_survivors(sorted@);
        let m2 = sorted.len();
        let mut logs: Vec<RenderLog> = Vec::new();
        let ghost base = out@;
        proof {
            assert(out@ =~= base + spec_render_list(
                self.policy,
                sorted_view.take(0),
                logs@,
                depth,
            ));
        }
        let mut j: usize = 0;
        while j < m2
            invariant
                j <= m2,
                m2 == sorted@.len(),
                logs@.len() == j as nat,
                out@ == base + spec_render_list(self.policy, sorted_view.take(j as int), logs@, depth),
                o is None && self.git is None ==> spec_log_pure_list(
                    self.policy,
                    sorted_view.take(j as int),
                    logs@,
                    depth,
                ),
            decreases m2 - j,
        {
            let pair = sorted[j];
            let child = pair.0;
            push_str_chars(out, prefix.as_str());
            push_str_chars(out, self.policy.charset.depth.as_str());
            let ckey = child_key(key, child.name.as_str());
            proof {
                assert(sorted_view[j as int] == (*child, pair.1));
                assert(survivor_entries(sorted_view)[j as int] == sorted_view[j as int].0);
                lemma_entries_height_elem(survivor_entries(sorted_view), j as int);
                assert(entry_height(*child) <= entries_height(survivor_entries(sorted_view)));
                if self.git is None {
                    assert(deref_survivors(sorted@)[j as int].1 is None);
                    assert(pair.1 is None);
                }
            }
            let clog = self.render_entry(
                out,
                child,
                o,
                &ckey,
                pair.1,
                next_prefix,
                next_remaining,
                Ghost(depth + 1),
                false,
            );
            let ghost old_logs = logs@;
            logs.push(clog);
            proof {
                let sv = sorted_view.take(j + 1);
                assert(sv.drop_last() =~= sorted_view.take(j as int));
                assert(sv.last() == sorted_view[j as int]);
                assert(logs@.drop_last() =~= old_logs);
                assert(survivor_entries(sv).last() == sv.last().0);
                assert(out@ =~= base + spec_render_list(self.policy, sv, logs@, depth));
                if o is None && self.git is None {
                    assert(spec_log_pure_list(self.policy, sv, logs@, depth));
                }
            }
            j = j + 1;
        }
        proof {
            assert(sorted_view.take(m2 as int) =~= sorted_view);
        }
        logs
    }

    /// Renders one entry and its subtree. The indentation prefix always
    /// holds `depth` repetitions of the breadth glyph, and the remaining
    /// level count mirrors the depth limit.
    #[verifier::rlimit(100)]
    fn render_entry<O: Overrides>(
        &self,
        out: &mut Vec<char>,
        e: &Entry,
        o: Option<&O>,
        key: &String,
        ignored_in: Option<Result<bool, GitError>>,
        prefix: &String,
        remaining: Option<usize>,
        Ghost(depth): Ghost<nat>,
        is_root: bool,
    ) -> (log: RenderLog)
        requires
            prefix@ == spec_repeat(self.policy.charset.breadth@, depth),
            spec_remaining_ok(self.policy.max_level, depth, remaining),
            ignored_in is Some ==> self.git is Some,
        ensures
            final(out)@ == old(out)@ + spec_render_entry(self.policy, *e, log, depth, is_root),
            o is None && self.git is None ==> spec_log_pure(self.policy, *e, log, depth),
        decreases entry_height(*e), 0nat,
    {
        let bits: Option<Result<u32, GitError>> = if e.attributes.is_none() {
            None
        } else {
            match self.git {
                None => None,
                Some(g) => Some(g.status_bits(key.as_str())),
            }
        };
        let lr = self.emit_line(out, e, o, &bits, ignored_in, is_root);
        let icon_o = lr.0;
        let color_o = lr.1;
        let unt_o = lr.2;
        let trk_o = lr.3;
        let is_dir = entry_is_dir(e);
        let within = match remaining {
            None => true,
            Some(r) => r > 0,
        };
        if !(is_dir && within) {
            let log = RenderLog {
                icon: icon_o,
                color: color_o,
                tracked_color: trk_o,
                untracked_color: unt_o,
                bits,
                ignored: ignored_in,
                child_skip: Vec::new(),
                child_ignored: Vec::new(),
                children: Vec::new(),
            };
            proof {
                assert(out@ =~= old(out)@ + spec_render_entry(
                    self.policy,
                    *e,
                    log,
                    depth,
                    is_root,
                ));
                if o is None && self.git is None {
                    assert(spec_log_pure(self.policy, *e, log, depth));
                }
            }
            return log;
        }
        let next_remaining: Option<usize> = match remaining {
            None => None,
            Some(r) => Some(r - 1),
        };
        let mut next_prefix = prefix.clone();
        next_prefix.append(self.policy.charset.breadth.as_str());
        proof {
            assert(next_prefix@ == spec_repeat(self.policy.charset.breadth@, depth + 1));
            assert(spec_remaining_ok(self.policy.max_level, depth + 1, next_remaining));
        }
        let collected = self.collect_survivors(&e.children, o, key);
        let pending = collected.0;
        let skips = collected.1;
        let igns = collected.2;
        let ghost pending_view = deref_survivors(pending@);
        let sorted = sort_survivors(&self.policy.sorting, pending);
        let ghost sorted_view = deref_survivors(sorted@);
        proof {
            lemma_survivors_contains(e.children@, skips@, igns@);
            lemma_sort_survivors_contains(self.policy.sorting, pending_view);
            assert forall|t: int| 0 <= t < sorted_view.len() implies e.children@.contains(
                #[trigger] sorted_view[t].0,
            ) by {
                assert(pending_view.contains(sorted_view[t]));
                let w = choose|w: int|
                    0 <= w < pending_view.len() && pending_view[w] == sorted_view[t];
                assert(e.children@.contains(pending_view[w].0));
            }
            assert forall|t: int| 0 <= t < survivor_entries(sorted_view).len()
                implies e.children@.contains(#[trigger] survivor_entries(sorted_view)[t]) by {
                assert(survivor_entries(sorted_view)[t] == sorted_view[t].0);
            }
            lemma_entries_height_subset(survivor_entries(sorted_view), e.children@);
            assert(entries_height(survivor_entries(sorted_view)) < entry_height(*e));
            if self.git is None {
                lemma_survivors_pairs(e.children@, skips@, igns@);
                assert forall|k: int| 0 <= k < sorted@.len() implies (#[trigger] deref_survivors(
                    sorted@,
                )[k].1) is None by {
                    assert(pending_view.contains(sorted_view[k]));
                    let w = choose|w: int|
                        0 <= w < pending_view.len() && pending_view[w] == sorted_view[k];
                    let i = choose|i: int|
                        0 <= i < e.children@.len() && pending_view[w] == (
                        e.children@[i],
                        igns@[i],
                        );
                    assert(igns@[i] is None);
                }
            }
        }
        let logs = self.render_children(
            out,
            sorted,
            o,
            key,
            prefix,
            &next_prefix,
            next_remaining,
            Ghost(depth),
        );
        let log = RenderLog {
            icon: icon_o,
            color: color_o,
            tracked_color: trk_o,
            untracked_color: unt_o,
            bits,
            ignored: ignored_in,
            child_skip: skips,
            child_ignored: igns,
            children: logs,
        };
        proof {
            assert(spec_survivors(e.children@, log.child_skip@, log.child_ignored@)
                == pending_view);
            assert(out@ =~= old(out)@ + spec_render_entry(self.policy, *e, log, depth, is_root));
            if o is None && self.git is None {
                assert(spec_log_pure(self.policy, *e, log, depth));
            }
        }
        log
    }
}

} // verus!

verus! {

/// Builds a [`Tree`].
pub struct Builder<'g> {
    git: Option<&'g Git>,
    colorize: bool,
    max_level: Option<usize>,
    charset: Option<Charset>,
    sorting: Option<Sorting>,
    root_key: Option<String>,
}

impl<'g> Builder<'g> {
    /// Creates a new builder; the color choice is resolved against what the
    /// terminal reports, once, before rendering begins.
    pub fn new(color_choice: ColorChoice, terminal_colors: bool) -> (r: Builder<'g>)
        ensures
            r.spec_colorize() == spec_color_enabled(color_choice, terminal_colors),
            r.spec_git() is None,
            r.spec_max_level() is None,
            r.spec_charset() is None,
            r.spec_sorting() is None,
            r.spec_root_key() is None,
    {
        Builder {
            git: None,
            colorize: color_choice.resolve(terminal_colors),
            max_level: None,
            charset: None,
            sorting: None,
            root_key: None,
        }
    }

    /// The resolved colorization.
    pub closed spec fn spec_colorize(&self) -> bool {
        self.colorize
    }

    /// The configured git overlay.
    pub closed spec fn spec_git(&self) -> Option<&'g Git> {
        self.git
    }

    /// The configured depth limit.
    pub closed spec fn spec_max_level(&self) -> Option<usize> {
        self.max_level
    }

    /// The configured charset.
    pub closed spec fn spec_charset(&self) -> Option<Charset> {
        self.charset
    }

    /// The configured sorting policy.
    pub closed spec fn spec_sorting(&self) -> Option<Sorting> {
        self.sorting
    }

    /// The configured root key.
    pub closed spec fn spec_root_key(&self) -> Option<String> {
        self.root_key
    }

    /// Adds a git overlay, with the repository-relative key of the root.
    #[must_use]
    pub fn git(self, git: &'g Git, root_key: String) -> (r: Self)
        ensures
            r.spec_git() == Some(git),
            r.spec_root_key() == Some(root_key),
            r.spec_colorize() == self.spec_colorize(),
            r.spec_max_level() == self.spec_max_level(),
            r.spec_charset() == self.spec_charset(),
            r.spec_sorting() == self.spec_sorting(),
    {
        Builder { git: Some(git), root_key: Some(root_key), ..self }
    }

    /// Sets the maximum depth level.
    #[must_use]
    pub fn max_level(self, level: usize) -> (r: Self)
        ensures
            r.spec_max_level() == Some(level),
            r.spec_git() == self.spec_git(),
            r.spec_colorize() == self.spec_colorize(),
            r.spec_charset() == self.spec_charset(),
            r.spec_sorting() == self.spec_sorting(),
            r.spec_root_key() == self.spec_root_key(),
    {
        Builder { max_level: Some(level), ..self }
    }

    /// Sets the charset.
    #[must_use]
    pub fn charset(self, charset: Charset) -> (r: Self)
        ensures
            r.spec_charset() == Some(charset),
            r.spec_git() == self.spec_git(),
            r.spec_colorize() == self.spec_colorize(),
            r.spec_max_level() == self.spec_max_level(),
            r.spec_sorting() == self.spec_sorting(),
            r.spec_root_key() == self.spec_root_key(),
    {
        Builder { charset: Some(charset), ..self }
    }

    /// Sets the sorting policy.
    #[must_use]
    pub fn sorting(self, sorting: Sorting) -> (r: Self)
        ensures
            r.spec_sorting() == Some(sorting),
            r.spec_git() == self.spec_git(),
            r.spec_colorize() == self.spec_colorize(),
            r.spec_max_level() == self.spec_max_level(),
            r.spec_charset() == self.spec_charset(),
            r.spec_root_key() == self.spec_root_key(),
    {
        Builder { sorting: Some(sorting), ..self }
    }

    /// Creates the [`Tree`], filling what was not set with the defaults.
    pub fn build(self) -> (r: Tree<'g>)
        ensures
            r.policy.colorize == self.spec_colorize(),
            r.policy.max_level == self.spec_max_level(),
            r.git == self.spec_git(),
            self.spec_charset() matches Some(c) ==> r.policy.charset == c,
            self.spec_charset() is None ==> r.policy.charset.depth@ == "- "@
                && r.policy.charset.breadth@ == "  "@,
            self.spec_sorting() matches Some(s) ==> r.policy.sorting == s,
            self.spec_sorting() is None ==> r.policy.sorting == (Sorting {
                method: crate::sorting::Method::Naive,
                direction: crate::sorting::Direction::Asc,
                directories: crate::sorting::Directories::Mixed,
                ignore_case: false,
                ignore_dot: false,
            }),
            self.spec_root_key() matches Some(k) ==> r.root_key == k,
            self.spec_root_key() is None ==> (r.root_key@ == Seq::<char>::empty()),
    {
        let charset = match self.charset {
            Some(c) => c,
            None => Charset::default(),
        };
        let sorting = match self.sorting {
            Some(s) => s,
            None => Sorting::default(),
        };
        let root_key = match self.root_key {
            Some(k) => k,
            None => String::new(),
        };
        Tree {
            policy: RenderPolicy {
                max_level: self.max_level,
                charset,
                colorize: self.colorize,
                sorting,
            },
            git: self.git,
            root_key,
        }
    }
}

} // verus!

verus! {

/// An outcome that resolves to the engine default: no override, or a
/// failed call.
pub open spec fn spec_outcome_defaulting<T>(o: Outcome<T>) -> bool {
    o is Absent || o is Failed
}

/// Two outcomes that resolve alike: equal, or both falling back to the
/// default.
pub open spec fn spec_outcomes_equiv<T>(o1: Outcome<T>, o2: Outcome<T>) -> bool {
    o1 == o2 || (spec_outcome_defaulting(o1) && spec_outcome_defaulting(o2))
}

/// Two render logs that resolve alike everywhere: the repository answered
/// the same, and on every axis the override outcomes are equal or both
/// fall back to the engine default.
pub open spec fn spec_logs_equiv(p: RenderPolicy, e: Entry, l1: RenderLog, l2: RenderLog) -> bool
    decreases entry_height(e), 0nat,
{
    &&& spec_outcomes_equiv(spec_icon_outcome(l1.icon), spec_icon_outcome(l2.icon))
    &&& spec_outcomes_equiv(l1.color, l2.color)
    &&& spec_outcomes_equiv(l1.tracked_color, l2.tracked_color)
    &&& spec_outcomes_equiv(l1.untracked_color, l2.untracked_color)
    &&& l1.bits == l2.bits
    &&& l1.ignored == l2.ignored
    &&& l1.child_skip@.len() == e.children@.len()
    &&& l2.child_skip@.len() == e.children@.len()
    &&& l1.child_ignored@ == l2.child_ignored@
    &&& (forall|k: int|
        0 <= k < e.children@.len() ==> spec_outcomes_equiv(
            #[trigger] l1.child_skip@[k],
            l2.child_skip@[k],
        ))
    &&& {
        let sv = spec_sort_survivors(
            p.sorting,
            spec_survivors(e.children@, l1.child_skip@, l1.child_ignored@),
        );
        proof {
            lemma_survivors_contains(e.children@, l1.child_skip@, l1.child_ignored@);
            lemma_sort_survivors_contains(
                p.sorting,
                spec_survivors(e.children@, l1.child_skip@, l1.child_ignored@),
            );
            let pv = spec_survivors(e.children@, l1.child_skip@, l1.child_ignored@);
            assert forall|t: int| 0 <= t < survivor_entries(sv).len() implies e.children@.contains(
                #[trigger] survivor_entries(sv)[t],
            ) by {
                assert(survivor_entries(sv)[t] == sv[t].0);
                assert(pv.contains(sv[t]));
                let w = choose|w: int| 0 <= w < pv.len() && pv[w] == sv[t];
                assert(e.children@.contains(pv[w].0));
            }
            lemma_entries_height_subset(survivor_entries(sv), e.children@);
        }
        spec_logs_equiv_list(p, sv, l1.children@, l2.children@)
    }
}

/// Pointwise equivalence of the child logs along a run of survivors.
pub open spec fn spec_logs_equiv_list(
    p: RenderPolicy,
    items: Seq<(Entry, Option<Result<bool, GitError>>)>,
    logs1: Seq<RenderLog>,
    logs2: Seq<RenderLog>,
) -> bool
    decreases entries_height(survivor_entries(items)), items.len(),
{
    &&& logs1.len() == items.len()
    &&& logs2.len() == items.len()
    &&& (items.len() == 0 || {
        proof {
            assert(survivor_entries(items.drop_last()) =~= survivor_entries(items).drop_last());
            assert(survivor_entries(items).last() == items.last().0);
        }
        spec_logs_equiv_list(p, items.drop_last(), logs1.drop_last(), logs2.drop_last())
            && spec_logs_equiv(p, items.last().0, logs1.last(), logs2.last())
    })
}

/// Children survive identically under skip outcomes that resolve alike.
proof fn lemma_survivors_equiv(
    children: Seq<Entry>,
    sk1: Seq<Outcome<bool>>,
    sk2: Seq<Outcome<bool>>,
    ig: Seq<Option<Result<bool, GitError>>>,
)
    requires
        sk1.len() == children.len(),
        sk2.len() == children.len(),
        forall|k: int| 0 <= k < children.len() ==> spec_outcomes_equiv(#[trigger] sk1[k], sk2[k]),
    ensures
        spec_survivors(children, sk1, ig) == spec_survivors(children, sk2, ig),
    decreases children.len(),
{
    if children.len() > 0 {
        assert forall|k: int| 0 <= k < children.len() - 1 implies spec_outcomes_equiv(
            #[trigger] sk1.drop_last()[k],
            sk2.drop_last()[k],
        ) by {
            assert(sk1.drop_last()[k] == sk1[k]);
            assert(sk2.drop_last()[k] == sk2[k]);
        }
        lemma_survivors_equiv(children.drop_last(), sk1.drop_last(), sk2.drop_last(), ig.drop_last());
        assert(spec_outcomes_equiv(sk1[children.len() - 1], sk2[children.len() - 1]));
        assert(sk1.last() == sk1[children.len() - 1]);
        assert(sk2.last() == sk2[children.len() - 1]);
    }
}

/// Policy fallback, from one entry down: two renders whose recorded
/// observations resolve alike produce identical output. In particular, an
/// override that always fails leaves the output identical to having no
/// override configured at all, and two renders that observed the very same
/// repository answers and override answers produce byte-identical output.
pub proof fn lemma_equiv_render(
    p: RenderPolicy,
    e: Entry,
    l1: RenderLog,
    l2: RenderLog,
    depth: nat,
    is_root: bool,
)
    requires
        spec_logs_equiv(p, e, l1, l2),
    ensures
        spec_render_entry(p, e, l1, depth, is_root) == spec_render_entry(p, e, l2, depth, is_root),
    decreases entry_height(e), 0nat,
{
    assert(spec_line(p, e, l1, is_root) == spec_line(p, e, l2, is_root));
    if !spec_entry_is_dir(e) {
    } else if p.max_level matches Some(m) && depth >= m {
    } else {
        lemma_survivors_equiv(e.children@, l1.child_skip@, l2.child_skip@, l1.child_ignored@);
        let sv = spec_sort_survivors(
            p.sorting,
            spec_survivors(e.children@, l1.child_skip@, l1.child_ignored@),
        );
        assert(spec_sort_survivors(
            p.sorting,
            spec_survivors(e.children@, l2.child_skip@, l2.child_ignored@),
        ) == sv);
        lemma_survivors_contains(e.children@, l1.child_skip@, l1.child_ignored@);
        lemma_sort_survivors_contains(
            p.sorting,
            spec_survivors(e.children@, l1.child_skip@, l1.child_ignored@),
        );
        let pv = spec_survivors(e.children@, l1.child_skip@, l1.child_ignored@);
        assert forall|t: int| 0 <= t < survivor_entries(sv).len() implies e.children@.contains(
            #[trigger] survivor_entries(sv)[t],
        ) by {
            assert(survivor_entries(sv)[t] == sv[t].0);
            assert(pv.contains(sv[t]));
            let w = choose|w: int| 0 <= w < pv.len() && pv[w] == sv[t];
            assert(e.children@.contains(pv[w].0));
        }
        lemma_entries_height_subset(survivor_entries(sv), e.children@);
        lemma_equiv_render_list(p, sv, l1.children@, l2.children@, depth);
    }
}

/// The run form of [`lemma_equiv_render`].
proof fn lemma_equiv_render_list(
    p: RenderPolicy,
    items: Seq<(Entry, Option<Result<bool, GitError>>)>,
    logs1: Seq<RenderLog>,
    logs2: Seq<RenderLog>,
    parent_depth: nat,
)
    requires
        spec_logs_equiv_list(p, items, logs1, logs2),
    ensures
        spec_render_list(p, items, logs1, parent_depth) == spec_render_list(
            p,
            items,
            logs2,
            parent_depth,
        ),
    decreases entries_height(survivor_entries(items)), items.len(),
{
    if items.len() > 0 {
        assert(survivor_entries(items.drop_last()) =~= survivor_entries(items).drop_last());
        assert(survivor_entries(items).last() == items.last().0);
        lemma_equiv_render_list(
            p,
            items.drop_last(),
            logs1.drop_last(),
            logs2.drop_last(),
            parent_depth,
        );
        lemma_equiv_render(p, items.last().0, logs1.last(), logs2.last(), parent_depth + 1, false);
    }
}

} // verus!

verus! {

/// Rendering is repeatable: two renders of the same snapshot under the
/// same policy that both observed only pure logs, as renders without a
/// repository and without overrides do, produce byte-identical output.
pub proof fn lemma_pure_render_unique(
    p: RenderPolicy,
    e: Entry,
    l1: RenderLog,
    l2: RenderLog,
    depth: nat,
    is_root: bool,
)
    requires
        spec_log_pure(p, e, l1, depth),
        spec_log_pure(p, e, l2, depth),
    ensures
        spec_render_entry(p, e, l1, depth, is_root) == spec_render_entry(p, e, l2, depth, is_root),
    decreases entry_height(e), 0nat,
{
    assert(spec_line(p, e, l1, is_root) == spec_line(p, e, l2, is_root));
    if !spec_entry_is_dir(e) {
    } else if p.max_level matches Some(m) && depth >= m {
    } else {
        assert(l1.child_skip@ =~= l2.child_skip@);
        assert(l1.child_ignored@ =~= l2.child_ignored@);
        let sv = spec_sort_survivors(
            p.sorting,
            spec_survivors(e.children@, l1.child_skip@, l1.child_ignored@),
        );
        lemma_survivors_contains(e.children@, l1.child_skip@, l1.child_ignored@);
        lemma_sort_survivors_contains(
            p.sorting,
            spec_survivors(e.children@, l1.child_skip@, l1.child_ignored@),
        );
        let pv = spec_survivors(e.children@, l1.child_skip@, l1.child_ignored@);
        assert forall|t: int| 0 <= t < survivor_entries(sv).len() implies e.children@.contains(
            #[trigger] survivor_entries(sv)[t],
        ) by {
            assert(survivor_entries(sv)[t] == sv[t].0);
            assert(pv.contains(sv[t]));
            let w = choose|w: int| 0 <= w < pv.len() && pv[w] == sv[t];
            assert(e.children@.contains(pv[w].0));
        }
        lemma_entries_height_subset(survivor_entries(sv), e.children@);
        lemma_pure_render_unique_list(p, sv, l1.children@, l2.children@, depth);
    }
}

/// The run form of [`lemma_pure_render_unique`].
proof fn lemma_pure_render_unique_list(
    p: RenderPolicy,
    items: Seq<(Entry, Option<Result<bool, GitError>>)>,
    logs1: Seq<RenderLog>,
    logs2: Seq<RenderLog>,
    parent_depth: nat,
)
    requires
        spec_log_pure_list(p, items, logs1, parent_depth),
        spec_log_pure_list(p, items, logs2, parent_depth),
    ensures
        spec_render_list(p, items, logs1, parent_depth) == spec_render_list(
            p,
            items,
            logs2,
            parent_depth,
        ),
    decreases entries_height(survivor_entries(items)), items.len(),
{
    if items.len() > 0 {
        assert(survivor_entries(items.drop_last()) =~= survivor_entries(items).drop_last());
        assert(survivor_entries(items).last() == items.last().0);
        lemma_pure_render_unique_list(
            p,
            items.drop_last(),
            logs1.drop_last(),
            logs2.drop_last(),
            parent_depth,
        );
        lemma_pure_render_unique(
            p,
            items.last().0,
            logs1.last(),
            logs2.last(),
            parent_depth + 1,
            false,
        );
    }
}

} // verus!

verus! {

/// Depth limiting: at or beyond the configured maximum level an entry
/// contributes exactly its own line and nothing of its children, so no
/// rendered line ever comes from deeper than the limit; that every render
/// ends at all is part of the definition, whose recursion is checked to
/// terminate on the structure of the snapshot.
pub proof fn lemma_depth_capped(
    p: RenderPolicy,
    e: Entry,
    log: RenderLog,
    depth: nat,
    is_root: bool,
    m: usize,
)
    requires
        p.max_level == Some(m),
        depth >= m,
    ensures
        spec_render_entry(p, e, log, depth, is_root) == spec_line(p, e, log, is_root) + "\n"@,
{
}

} // verus!

verus! {

/// The plan of a render: one pair per emitted line, holding the recursion
/// depth the line came from and the line itself, without indentation and
/// newline.
pub open spec fn spec_plan_entry(
    p: RenderPolicy,
    e: Entry,
    log: RenderLog,
    depth: nat,
    is_root: bool,
) -> Seq<(nat, Seq<char>)>
    decreases entry_height(e), 0nat,
{
    let line = (depth, spec_line(p, e, log, is_root));
    if !spec_entry_is_dir(e) {
        seq![line]
    } else if p.max_level matches Some(m) && depth >= m {
        seq![line]
    } else {
        let survivors = spec_survivors(e.children@, log.child_skip@, log.child_ignored@);
        let sorted = spec_sort_survivors(p.sorting, survivors);
        proof {
            lemma_survivors_contains(e.children@, log.child_skip@, log.child_ignored@);
            lemma_sort_survivors_contains(p.sorting, survivors);
            assert forall|j: int|
                0 <= j < survivor_entries(sorted).len() implies e.children@.contains(
                #[trigger] survivor_entries(sorted)[j],
            ) by {
                assert(survivor_entries(sorted)[j] == sorted[j].0);
                assert(survivors.contains(sorted[j]));
                let i = choose|i: int| 0 <= i < survivors.len() && survivors[i] == sorted[j];
                assert(e.children@.contains(survivors[i].0));
            }
            lemma_entries_height_subset(survivor_entries(sorted), e.children@);
        }
        seq![line] + spec_plan_list(p, sorted, log.children@, depth)
    }
}

/// The plan of a run of sorted survivors.
pub open spec fn spec_plan_list(
    p: RenderPolicy,
    items: Seq<(Entry, Option<Result<bool, GitError>>)>,
    logs: Seq<RenderLog>,
    parent_depth: nat,
) -> Seq<(nat, Seq<char>)>
    decreases entries_height(survivor_entries(items)), items.len(),
{
    if items.len() == 0 {
        Seq::empty()
    } else {
        proof {
            assert(survivor_entries(items.drop_last()) =~= survivor_entries(items).drop_last());
            assert(survivor_entries(items).last() == items.last().0);
        }
        spec_plan_list(p, items.drop_last(), logs.drop_last(), parent_depth) + spec_plan_entry(
            p,
            items.last().0,
            logs.last(),
            parent_depth + 1,
            false,
        )
    }
}

/// The indentation one planned line carries: nothing at the root level,
/// otherwise the breadth glyph once per level above one, then the descent
/// glyph.
pub open spec fn spec_item_prefix(p: RenderPolicy, depth: nat) -> Seq<char> {
    if depth == 0 {
        Seq::empty()
    } else {
        spec_repeat(p.charset.breadth@, (depth - 1) as nat) + p.charset.depth@
    }
}

/// Renders a plan back into text: each line behind its indentation,
/// closed by a newline.
pub open spec fn spec_format_plan(p: RenderPolicy, plan: Seq<(nat, Seq<char>)>) -> Seq<char>
    decreases plan.len(),
{
    if plan.len() == 0 {
        Seq::empty()
    } else {
        spec_format_plan(p, plan.drop_last()) + spec_item_prefix(p, plan.last().0)
            + plan.last().1 + "\n"@
    }
}

/// Formatting distributes over plan concatenation.
proof fn lemma_format_plan_add(
    p: RenderPolicy,
    a: Seq<(nat, Seq<char>)>,
    b: Seq<(nat, Seq<char>)>,
)
    ensures
        spec_format_plan(p, a + b) == spec_format_plan(p, a) + spec_format_plan(p, b),
    decreases b.len(),
{
    if b.len() == 0 {
        assert(a + b =~= a);
        assert(spec_format_plan(p, a) + spec_format_plan(p, b) =~= spec_format_plan(p, a));
    } else {
        assert((a + b).drop_last() =~= a + b.drop_last());
        assert((a + b).last() == b.last());
        lemma_format_plan_add(p, a, b.drop_last());
        assert(spec_format_plan(p, a + b) =~= spec_format_plan(p, a) + spec_format_plan(p, b));
    }
}

/// The render of one entry is exactly its plan, formatted, behind the
/// prefix its own line carries.
pub proof fn lemma_render_is_plan(
    p: RenderPolicy,
    e: Entry,
    log: RenderLog,
    depth: nat,
    is_root: bool,
)
    ensures
        spec_item_prefix(p, depth) + spec_render_entry(p, e, log, depth, is_root)
            == spec_format_plan(p, spec_plan_entry(p, e, log, depth, is_root)),
    decreases entry_height(e), 0nat,
{
    let line = spec_line(p, e, log, is_root);
    let single = seq![(depth, line)];
    assert(single.drop_last() =~= Seq::<(nat, Seq<char>)>::empty());
    assert(single.last() == (depth, line));
    assert(spec_format_plan(p, Seq::<(nat, Seq<char>)>::empty()) == Seq::<char>::empty());
    assert(spec_format_plan(p, single.drop_last()) == Seq::<char>::empty());
    assert(spec_format_plan(p, single) =~= spec_item_prefix(p, depth) + line + "\n"@);
    if !spec_entry_is_dir(e) {
        assert(spec_item_prefix(p, depth) + spec_render_entry(p, e, log, depth, is_root)
            =~= spec_format_plan(p, spec_plan_entry(p, e, log, depth, is_root)));
    } else if p.max_level matches Some(m) && depth >= m {
        assert(spec_item_prefix(p, depth) + spec_render_entry(p, e, log, depth, is_root)
            =~= spec_format_plan(p, spec_plan_entry(p, e, log, depth, is_root)));
    } else {
        let survivors = spec_survivors(e.children@, log.child_skip@, log.child_ignored@);
        let sorted = spec_sort_survivors(p.sorting, survivors);
        lemma_survivors_contains(e.children@, log.child_skip@, log.child_ignored@);
        lemma_sort_survivors_contains(p.sorting, survivors);
        assert forall|j: int|
            0 <= j < survivor_entries(sorted).len() implies e.children@.contains(
            #[trigger] survivor_entries(sorted)[j],
        ) by {
            assert(survivor_entries(sorted)[j] == sorted[j].0);
            assert(survivors.contains(sorted[j]));
            let i = choose|i: int| 0 <= i < survivors.len() && survivors[i] == sorted[j];
            assert(e.children@.contains(survivors[i].0));
        }
        lemma_entries_height_subset(survivor_entries(sorted), e.children@);
        lemma_render_list_is_plan(p, sorted, log.children@, depth);
        lemma_format_plan_add(p, single, spec_plan_list(p, sorted, log.children@, depth));
        assert(spec_item_prefix(p, depth) + spec_render_entry(p, e, log, depth, is_root)
            =~= spec_format_plan(p, single) + spec_format_plan(
            p,
            spec_plan_list(p, sorted, log.children@, depth),
        ));
        assert(spec_plan_entry(p, e, log, depth, is_root) == single + spec_plan_list(
            p,
            sorted,
            log.children@,
            depth,
        ));
    }
}

/// The run form of [`lemma_render_is_plan`].
proof fn lemma_render_list_is_plan(
    p: RenderPolicy,
    items: Seq<(Entry, Option<Result<bool, GitError>>)>,
    logs: Seq<RenderLog>,
    parent_depth: nat,
)
    ensures
        spec_render_list(p, items, logs, parent_depth) == spec_format_plan(
            p,
            spec_plan_list(p, items, logs, parent_depth),
        ),
    decreases entries_height(survivor_entries(items)), items.len(),
{
    if items.len() == 0 {
    } else {
        assert(survivor_entries(items.drop_last()) =~= survivor_entries(items).drop_last());
        assert(survivor_entries(items).last() == items.last().0);
        lemma_render_list_is_plan(p, items.drop_last(), logs.drop_last(), parent_depth);
        lemma_render_is_plan(p, items.last().0, logs.last(), parent_depth + 1, false);
        lemma_format_plan_add(
            p,
            spec_plan_list(p, items.drop_last(), logs.drop_last(), parent_depth),
            spec_plan_entry(p, items.last().0, logs.last(), parent_depth + 1, false),
        );
        assert(spec_item_prefix(p, parent_depth + 1) =~= spec_repeat(
            p.charset.breadth@,
            parent_depth,
        ) + p.charset.depth@);
        assert(spec_render_list(p, items, logs, parent_depth) =~= spec_format_plan(
            p,
            spec_plan_list(p, items.drop_last(), logs.drop_last(), parent_depth),
        ) + spec_format_plan(
            p,
            spec_plan_entry(p, items.last().0, logs.last(), parent_depth + 1, false),
        ));
    }
}

/// Depth limiting: with a maximum level configured, every line the render
/// plans sits at a depth within the limit; the rendered text is exactly
/// that plan, formatted.
pub proof fn lemma_depth_limited(p: RenderPolicy, e: Entry, log: RenderLog, depth: nat, is_root: bool, m: usize)
    requires
        p.max_level == Some(m),
        depth <= m,
    ensures
        forall|k: int|
            0 <= k < spec_plan_entry(p, e, log, depth, is_root).len() ==> (
            #[trigger] spec_plan_entry(p, e, log, depth, is_root)[k]).0 <= m,
    decreases entry_height(e), 0nat,
{
    let plan = spec_plan_entry(p, e, log, depth, is_root);
    if !spec_entry_is_dir(e) {
    } else if depth >= m {
    } else {
        let survivors = spec_survivors(e.children@, log.child_skip@, log.child_ignored@);
        let sorted = spec_sort_survivors(p.sorting, survivors);
        lemma_survivors_contains(e.children@, log.child_skip@, log.child_ignored@);
        lemma_sort_survivors_contains(p.sorting, survivors);
        assert forall|j: int|
            0 <= j < survivor_entries(sorted).len() implies e.children@.contains(
            #[trigger] survivor_entries(sorted)[j],
        ) by {
            assert(survivor_entries(sorted)[j] == sorted[j].0);
            assert(survivors.contains(sorted[j]));
            let i = choose|i: int| 0 <= i < survivors.len() && survivors[i] == sorted[j];
            assert(e.children@.contains(survivors[i].0));
        }
        lemma_entries_height_subset(survivor_entries(sorted), e.children@);
        lemma_depth_limited_list(p, sorted, log.children@, depth, m);
        let rest = spec_plan_list(p, sorted, log.children@, depth);
        assert forall|k: int| 0 <= k < plan.len() implies (#[trigger] plan[k]).0 <= m by {
            if k > 0 {
                assert(plan[k] == rest[k - 1]);
            }
        }
    }
}

/// The run form of [`lemma_depth_limited`].
proof fn lemma_depth_limited_list(
    p: RenderPolicy,
    items: Seq<(Entry, Option<Result<bool, GitError>>)>,
    logs: Seq<RenderLog>,
    parent_depth: nat,
    m: usize,
)
    requires
        p.max_level == Some(m),
        parent_depth < m,
    ensures
        forall|k: int|
            0 <= k < spec_plan_list(p, items, logs, parent_depth).len() ==> (
            #[trigger] spec_plan_list(p, items, logs, parent_depth)[k]).0 <= m,
    decreases entries_height(survivor_entries(items)), items.len(),
{
    if items.len() > 0 {
        assert(survivor_entries(items.drop_last()) =~= survivor_entries(items).drop_last());
        assert(survivor_entries(items).last() == items.last().0);
        lemma_depth_limited_list(p, items.drop_last(), logs.drop_last(), parent_depth, m);
        lemma_depth_limited(p, items.last().0, logs.last(), parent_depth + 1, false, m);
        let front = spec_plan_list(p, items.drop_last(), logs.drop_last(), parent_depth);
        let back = spec_plan_entry(p, items.last().0, logs.last(), parent_depth + 1, false);
        let whole = spec_plan_list(p, items, logs, parent_depth);
        assert forall|k: int| 0 <= k < whole.len() implies (#[trigger] whole[k]).0 <= m by {
            if k < front.len() {
                assert(whole[k] == front[k]);
            } else {
                assert(whole[k] == back[k - front.len()]);
            }
        }
    }
}

} // verus!
