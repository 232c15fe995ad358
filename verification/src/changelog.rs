//! The changelog aggregation engine.
//!
//! A queue of pending release-note entries is parsed, classified by target
//! document and category, rendered into one new release section per target,
//! and prepended to the matching changelog document; on success the queue is
//! cleared.  The whole operation is modelled on in-memory byte strings: the
//! caller loads the three persistent files into a [`ChangelogState`], runs
//! [`update_changelogs`], and commits all three files only on success.
//!
//! Queue format, one entry is seven lines in this order (blank lines between
//! entries are ignored):
//!
//! ```text
//! target=sdk            (or smithy)
//! message=<text>
//! author=<text>
//! refs=<comma-separated references, may be empty>
//! breaking=true|false
//! feature=true|false
//! bug=true|false
//! ```

use vstd::prelude::*;

use crate::bytes::{
    ascii_bytes, ascii_view, bytes_eq, push_all, spec_split, spec_split_nonblank, split_bytes,
    split_nonblank, starts_with, subrange_vec, COMMA, LINE_FEED,
};

verus! {

/// Which of the two changelog documents an entry belongs to.
#[derive(Clone, Copy, Debug, PartialEq, Eq, Structural)]
pub enum Target {
    /// The changelog of the underlying code generator.
    Smithy,
    /// The changelog of the downstream SDK.
    Sdk,
}

/// The category an entry is grouped under inside a release section.
#[derive(Clone, Copy, Debug, PartialEq, Eq, Structural)]
pub enum Category {
    Breaking,
    Feature,
    Bug,
    Other,
}

/// One unit of pending release-note content.
#[derive(Debug)]
pub struct PendingChangelogEntry {
    pub target: Target,
    pub message: Vec<u8>,
    pub author: Vec<u8>,
    pub references: Vec<Vec<u8>>,
    pub breaking: bool,
    pub feature: bool,
    pub bug: bool,
}

/// The mathematical value of a [`PendingChangelogEntry`].
pub ghost struct EntryView {
    pub target: Target,
    pub message: Seq<u8>,
    pub author: Seq<u8>,
    pub references: Seq<Seq<u8>>,
    pub breaking: bool,
    pub feature: bool,
    pub bug: bool,
}

impl View for PendingChangelogEntry {
    type V = EntryView;

    open spec fn view(&self) -> EntryView {
        EntryView {
            target: self.target,
            message: self.message@,
            author: self.author@,
            references: self.references.deep_view(),
            breaking: self.breaking,
            feature: self.feature,
            bug: self.bug,
        }
    }
}

impl DeepView for PendingChangelogEntry {
    type V = EntryView;

    open spec fn deep_view(&self) -> EntryView {
        self.view()
    }
}

/// Why the pending-entries queue was rejected.
#[derive(Clone, Copy, Debug, PartialEq, Eq, Structural)]
pub enum ParseErrorKind {
    /// The queue holds a number of non-blank lines that is no multiple of
    /// seven, so the final entry is cut short.
    IncompleteEntry,
    /// A line does not begin with the key expected at its position.
    UnexpectedKey,
    /// The target line names neither of the two documents.
    UnknownTarget,
    /// A classification line holds neither `true` nor `false`.
    BadFlag,
}

/// A malformed queue, with the index of the entry that is bad.
#[derive(Clone, Copy, Debug, PartialEq, Eq, Structural)]
pub struct ParseError {
    pub entry: usize,
    pub kind: ParseErrorKind,
}

/// The value of `line` after `key`, if `line` begins with `key`.
pub open spec fn field_value(line: Seq<u8>, key: Seq<u8>) -> Option<Seq<u8>> {
    if key.is_prefix_of(line) {
        Some(line.skip(key.len() as int))
    } else {
        None
    }
}

/// The document a target line's value selects.
pub open spec fn spec_parse_target(v: Seq<u8>) -> Option<Target> {
    if v == ascii_view("smithy"@) {
        Some(Target::Smithy)
    } else if v == ascii_view("sdk"@) {
        Some(Target::Sdk)
    } else {
        None
    }
}

/// The boolean a classification line's value selects.
pub open spec fn spec_parse_flag(v: Seq<u8>) -> Option<bool> {
    if v == ascii_view("true"@) {
        Some(true)
    } else if v == ascii_view("false"@) {
        Some(false)
    } else {
        None
    }
}

/// The references a refs line's value holds: none when empty, otherwise the
/// comma-separated pieces.
pub open spec fn spec_parse_refs(v: Seq<u8>) -> Seq<Seq<u8>> {
    if v.len() == 0 {
        Seq::empty()
    } else {
        spec_split(v, COMMA)
    }
}

/// A classification line parsed against its expected key.
pub open spec fn spec_parse_flag_line(line: Seq<u8>, key: Seq<u8>) -> Result<bool, ParseErrorKind> {
    match field_value(line, key) {
        Option::None => Err(ParseErrorKind::UnexpectedKey),
        Option::Some(v) => match spec_parse_flag(v) {
            Option::None => Err(ParseErrorKind::BadFlag),
            Option::Some(b) => Ok(b),
        },
    }
}

/// One entry parsed from its seven lines.
pub open spec fn spec_parse_entry(g: Seq<Seq<u8>>) -> Result<EntryView, ParseErrorKind>
    recommends
        g.len() == 7,
{
    match field_value(g[0], ascii_view("target="@)) {
        Option::None => Err(ParseErrorKind::UnexpectedKey),
        Option::Some(tv) => match spec_parse_target(tv) {
            Option::None => Err(ParseErrorKind::UnknownTarget),
            Option::Some(target) => match field_value(g[1], ascii_view("message="@)) {
                Option::None => Err(ParseErrorKind::UnexpectedKey),
                Option::Some(message) => match field_value(g[2], ascii_view("author="@)) {
                    Option::None => Err(ParseErrorKind::UnexpectedKey),
                    Option::Some(author) => match field_value(g[3], ascii_view("refs="@)) {
                        Option::None => Err(ParseErrorKind::UnexpectedKey),
                        Option::Some(rv) => match spec_parse_flag_line(
                            g[4],
                            ascii_view("breaking="@),
                        ) {
                            Result::Err(k) => Err(k),
                            Result::Ok(breaking) => match spec_parse_flag_line(
                                g[5],
                                ascii_view("feature="@),
                            ) {
                                Result::Err(k) => Err(k),
                                Result::Ok(feature) => match spec_parse_flag_line(
                                    g[6],
                                    ascii_view("bug="@),
                                ) {
                                    Result::Err(k) => Err(k),
                                    Result::Ok(bug) => Ok(
                                        EntryView {
                                            target,
                                            message,
                                            author,
                                            references: spec_parse_refs(rv),
                                            breaking,
                                            feature,
                                            bug,
                                        },
                                    ),
                                },
                            },
                        },
                    },
                },
            },
        },
    }
}

/// The entries of successive seven-line groups, or the first failure with the
/// index of the entry it belongs to.
pub open spec fn spec_parse_groups(ls: Seq<Seq<u8>>, idx: int) -> Result<Seq<EntryView>, ParseError>
    recommends
        ls.len() % 7 == 0,
    decreases ls.len(),
{
    if ls.len() < 7 {
        Ok(Seq::empty())
    } else {
        match spec_parse_entry(ls.take(7)) {
            Result::Err(k) => Err(ParseError { entry: idx as usize, kind: k }),
            Result::Ok(e) => match spec_parse_groups(ls.skip(7), idx + 1) {
                Result::Err(pe) => Err(pe),
                Result::Ok(rest) => Ok(seq![e] + rest),
            },
        }
    }
}

/// What parsing the whole queue yields: the entries in order, or the first
/// malformed entry.  The queue is its non-blank lines, grouped in sevens.
pub open spec fn spec_parse_pending(s: Seq<u8>) -> Result<Seq<EntryView>, ParseError> {
    let content = spec_split_nonblank(s, LINE_FEED);
    if content.len() % 7 != 0 {
        Err(ParseError { entry: (content.len() / 7) as usize, kind: ParseErrorKind::IncompleteEntry })
    } else {
        spec_parse_groups(content, 0)
    }
}

/// Strips `key` from the front of `line`.
fn strip_key(line: &Vec<u8>, key: &str) -> (r: Option<Vec<u8>>)
    requires
        vstd::string::is_ascii(key),
    ensures
        match r {
            Option::Some(v) => field_value(line@, ascii_view(key@)) == Some(v@),
            Option::None => field_value(line@, ascii_view(key@)) is None,
        },
{
    let kb = ascii_bytes(key);
    if starts_with(line.as_slice(), kb) {
        let v = subrange_vec(line.as_slice(), kb.len(), line.len());
        proof {
            assert(line@.subrange(kb@.len() as int, line@.len() as int) =~= line@.skip(
                kb@.len() as int,
            ));
        }
        Some(v)
    } else {
        None
    }
}

fn parse_target_bytes(v: &[u8]) -> (r: Option<Target>)
    ensures
        r == spec_parse_target(v@),
{
    proof {
        reveal_strlit("smithy");
        reveal_strlit("sdk");
    }
    if bytes_eq(v, ascii_bytes("smithy")) {
        Some(Target::Smithy)
    } else if bytes_eq(v, ascii_bytes("sdk")) {
        Some(Target::Sdk)
    } else {
        None
    }
}

fn parse_flag_line(line: &Vec<u8>, key: &str) -> (r: Result<bool, ParseErrorKind>)
    requires
        vstd::string::is_ascii(key),
    ensures
        r == spec_parse_flag_line(line@, ascii_view(key@)),
{
    proof {
        reveal_strlit("true");
        reveal_strlit("false");
    }
    match strip_key(line, key) {
        None => Err(ParseErrorKind::UnexpectedKey),
        Some(v) => {
            if bytes_eq(v.as_slice(), ascii_bytes("true")) {
                Ok(true)
            } else if bytes_eq(v.as_slice(), ascii_bytes("false")) {
                Ok(false)
            } else {
                Err(ParseErrorKind::BadFlag)
            }
        },
    }
}

/// Parses one entry from its seven lines.
fn parse_entry_lines(
    l0: &Vec<u8>,
    l1: &Vec<u8>,
    l2: &Vec<u8>,
    l3: &Vec<u8>,
    l4: &Vec<u8>,
    l5: &Vec<u8>,
    l6: &Vec<u8>,
) -> (r: Result<PendingChangelogEntry, ParseErrorKind>)
    ensures
        match r {
            Result::Ok(e) => spec_parse_entry(seq![l0@, l1@, l2@, l3@, l4@, l5@, l6@]) == Result::<
                EntryView,
                ParseErrorKind,
            >::Ok(e@),
            Result::Err(k) => spec_parse_entry(seq![l0@, l1@, l2@, l3@, l4@, l5@, l6@]) == Result::<
                EntryView,
                ParseErrorKind,
            >::Err(k),
        },
{
    proof {
        reveal_strlit("target=");
        reveal_strlit("message=");
        reveal_strlit("author=");
        reveal_strlit("refs=");
        reveal_strlit("breaking=");
        reveal_strlit("feature=");
        reveal_strlit("bug=");
    }
    let tv = match strip_key(l0, "target=") {
        None => {
            return Err(ParseErrorKind::UnexpectedKey);
        },
        Some(v) => v,
    };
    let target = match parse_target_bytes(tv.as_slice()) {
        None => {
            return Err(ParseErrorKind::UnknownTarget);
        },
        Some(t) => t,
    };
    let message = match strip_key(l1, "message=") {
        None => {
            return Err(ParseErrorKind::UnexpectedKey);
        },
        Some(v) => v,
    };
    let author = match strip_key(l2, "author=") {
        None => {
            return Err(ParseErrorKind::UnexpectedKey);
        },
        Some(v) => v,
    };
    let rv = match strip_key(l3, "refs=") {
        None => {
            return Err(ParseErrorKind::UnexpectedKey);
        },
        Some(v) => v,
    };
    let references: Vec<Vec<u8>> = if rv.len() == 0 {
        Vec::new()
    } else {
        split_bytes(rv.as_slice(), COMMA)
    };
    proof {
        assert(references.deep_view() =~~= spec_parse_refs(rv@));
    }
    let breaking = match parse_flag_line(l4, "breaking=") {
        Err(k) => {
            return Err(k);
        },
        Ok(b) => b,
    };
    let feature = match parse_flag_line(l5, "feature=") {
        Err(k) => {
            return Err(k);
        },
        Ok(b) => b,
    };
    let bug = match parse_flag_line(l6, "bug=") {
        Err(k) => {
            return Err(k);
        },
        Ok(b) => b,
    };
    Ok(PendingChangelogEntry { target, message, author, references, breaking, feature, bug })
}

/// Parses the pending-entries queue.  Either every entry is well-formed and
/// all are returned in order, or the first malformed entry is reported and
/// nothing is returned — the publish operation fails closed.
pub fn parse_pending(input: &[u8]) -> (r: Result<Vec<PendingChangelogEntry>, ParseError>)
    ensures
        match r {
            Result::Ok(es) => spec_parse_pending(input@) == Result::<
                Seq<EntryView>,
                ParseError,
            >::Ok(es.deep_view()),
            Result::Err(e) => spec_parse_pending(input@) == Result::<
                Seq<EntryView>,
                ParseError,
            >::Err(e),
        },
{
    let content = split_nonblank(input, LINE_FEED);
    let ghost all = content.deep_view();
    let n = content.len();
    proof {
        assert(all.len() == n);
    }
    if n % 7 != 0 {
        return Err(ParseError { entry: n / 7, kind: ParseErrorKind::IncompleteEntry });
    }
    let mut entries: Vec<PendingChangelogEntry> = Vec::new();
    let mut pos: usize = 0;
    let mut idx: usize = 0;
    proof {
        assert(all.skip(0) =~= all);
        assert(entries.deep_view() + spec_parse_groups(all, 0)->Ok_0 =~= spec_parse_groups(
            all,
            0,
        )->Ok_0);
    }
    while pos < n
        invariant
            n == all.len(),
            content.deep_view() == all,
            all == spec_split_nonblank(input@, LINE_FEED),
            n % 7 == 0,
            pos % 7 == 0,
            pos <= n,
            pos == 7 * idx,
            spec_parse_groups(all, 0) == (match spec_parse_groups(all.skip(pos as int), idx as int) {
                Result::Ok(rest) => Result::<Seq<EntryView>, ParseError>::Ok(
                    entries.deep_view() + rest,
                ),
                Result::Err(e) => Result::<Seq<EntryView>, ParseError>::Err(e),
            }),
        decreases n - pos,
    {
        proof {
            assert(n - pos >= 7);
        }
        let l0 = &content[pos];
        let l1 = &content[pos + 1];
        let l2 = &content[pos + 2];
        let l3 = &content[pos + 3];
        let l4 = &content[pos + 4];
        let l5 = &content[pos + 5];
        let l6 = &content[pos + 6];
        proof {
            assert(all.skip(pos as int).take(7) =~~= seq![l0@, l1@, l2@, l3@, l4@, l5@, l6@]);
        }
        match parse_entry_lines(l0, l1, l2, l3, l4, l5, l6) {
            Err(k) => {
                proof {
                    assert(all.skip(pos as int).len() >= 7);
                    assert(spec_parse_entry(all.skip(pos as int).take(7)) == Result::<
                        EntryView,
                        ParseErrorKind,
                    >::Err(k));
                    assert(spec_parse_groups(all.skip(pos as int), idx as int) == Result::<
                        Seq<EntryView>,
                        ParseError,
                    >::Err(ParseError { entry: idx, kind: k }));
                }
                return Err(ParseError { entry: idx, kind: k });
            },
            Ok(e) => {
                let ghost prev_entries = entries.deep_view();
                let ghost ev = e@;
                entries.push(e);
                proof {
                    assert(entries.deep_view() =~~= prev_entries.push(ev));
                    assert(all.skip(pos as int).skip(7) =~= all.skip(pos + 7));
                    let tail = spec_parse_groups(all.skip(pos + 7), idx + 1);
                    if tail is Ok {
                        assert(prev_entries.push(ev) + tail->Ok_0 =~= prev_entries + (seq![ev]
                            + tail->Ok_0));
                    }
                }
                pos += 7;
                idx += 1;
            },
        }
    }
    proof {
        assert(all.skip(pos as int) =~= Seq::<Seq<u8>>::empty());
        assert(spec_parse_groups(all.skip(pos as int), idx as int) == Result::<
            Seq<EntryView>,
            ParseError,
        >::Ok(Seq::empty()));
        assert(entries.deep_view() + Seq::<EntryView>::empty() =~= entries.deep_view());
    }
    Ok(entries)
}

/// The category an entry is grouped under: a breaking change first, then a
/// new feature, then a bug fix, else other.
pub open spec fn category_of(e: EntryView) -> Category {
    if e.breaking {
        Category::Breaking
    } else if e.feature {
        Category::Feature
    } else if e.bug {
        Category::Bug
    } else {
        Category::Other
    }
}

/// Classifies one entry.
pub fn category(e: &PendingChangelogEntry) -> (c: Category)
    ensures
        c == category_of(e@),
{
    if e.breaking {
        Category::Breaking
    } else if e.feature {
        Category::Feature
    } else if e.bug {
        Category::Bug
    } else {
        Category::Other
    }
}

/// Each reference followed by its separator.
pub open spec fn ref_piece() -> spec_fn(Seq<u8>) -> Seq<u8> {
    |r: Seq<u8>| r + ascii_view(", "@)
}

/// One rendered bullet line: `- <message> (<refs, each with ", "> @<author>)`.
pub open spec fn render_item(e: EntryView) -> Seq<u8> {
    ascii_view("- "@) + e.message + ascii_view(" ("@) + e.references.flat_map(ref_piece())
        + ascii_view("@"@) + e.author + ascii_view(")\n"@)
}

/// The line an entry contributes to the block of target `t` and category `c`:
/// its rendered item when it belongs there, nothing otherwise.
pub open spec fn item_renderer(t: Target, c: Category) -> spec_fn(EntryView) -> Seq<u8> {
    |e: EntryView| if e.target == t && category_of(e) == c {
        render_item(e)
    } else {
        Seq::<u8>::empty()
    }
}

/// Whether some entry belongs to target `t` and category `c`.
pub open spec fn has_entry(es: Seq<EntryView>, t: Target, c: Category) -> bool {
    exists|i: int| 0 <= i < es.len() && es[i].target == t && category_of(es[i]) == c
}

/// The block one category contributes to a section: nothing when no entry of
/// the target falls under it, else a blank line, the heading, and the items
/// in their original relative order.
pub open spec fn category_block(es: Seq<EntryView>, t: Target, c: Category, h: Seq<char>) -> Seq<
    u8,
> {
    if has_entry(es, t, c) {
        ascii_view("\n"@) + ascii_view(h) + es.flat_map(item_renderer(t, c))
    } else {
        Seq::empty()
    }
}

/// The header of a release section: `## <version> (<date>)`.
pub open spec fn section_header(version: Seq<u8>, date: Seq<u8>) -> Seq<u8> {
    ascii_view("## "@) + version + ascii_view(" ("@) + date + ascii_view(")\n"@)
}

/// One release section for target `t`: the header, then the breaking,
/// feature, bug-fix and other blocks.
pub open spec fn render_section(
    version: Seq<u8>,
    date: Seq<u8>,
    es: Seq<EntryView>,
    t: Target,
) -> Seq<u8> {
    section_header(version, date) + category_block(es, t, Category::Breaking, "### Breaking changes\n"@)
        + category_block(es, t, Category::Feature, "### New features\n"@) + category_block(
        es,
        t,
        Category::Bug,
        "### Bug fixes\n"@,
    ) + category_block(es, t, Category::Other, "### Other changes\n"@)
}

/// Whether some entry is routed to target `t`.
pub open spec fn has_target(es: Seq<EntryView>, t: Target) -> bool {
    exists|i: int| 0 <= i < es.len() && es[i].target == t
}

/// What one publish does to one document: a target with no entries gets no
/// new section; otherwise the new section is prepended to the whole old
/// content, so existing sections keep their place behind it.
pub open spec fn spec_publish_doc(
    doc: Seq<u8>,
    version: Seq<u8>,
    date: Seq<u8>,
    es: Seq<EntryView>,
    t: Target,
) -> Seq<u8> {
    if has_target(es, t) {
        render_section(version, date, es, t) + doc
    } else {
        doc
    }
}

/// Appends the rendered bullet line of `e`.
fn render_item_into(out: &mut Vec<u8>, e: &PendingChangelogEntry)
    ensures
        final(out)@ == old(out)@ + render_item(e@),
{
    proof {
        reveal_strlit("- ");
        reveal_strlit(" (");
        reveal_strlit("@");
        reveal_strlit(")\n");
        reveal_strlit(", ");
    }
    push_all(out, ascii_bytes("- "));
    push_all(out, e.message.as_slice());
    push_all(out, ascii_bytes(" ("));
    let ghost base = out@;
    let ghost refs = e.references.deep_view();
    proof {
        assert(refs.take(0) =~= Seq::<Seq<u8>>::empty());
        assert(Seq::<Seq<u8>>::empty().flat_map(ref_piece()) =~= Seq::<u8>::empty());
        assert(out@ =~= base + refs.take(0).flat_map(ref_piece()));
    }
    let mut i: usize = 0;
    while i < e.references.len()
        invariant
            i <= refs.len(),
            refs == e.references.deep_view(),
            out@ == base + refs.take(i as int).flat_map(ref_piece()),
        decreases refs.len() - i,
    {
        proof {
            reveal_strlit(", ");
        }
        push_all(out, e.references[i].as_slice());
        push_all(out, ascii_bytes(", "));
        proof {
            refs.lemma_flat_map_take_append(ref_piece(), i as int);
            assert(refs[i as int] =~= e.references@[i as int]@);
            assert(ref_piece()(refs[i as int]) == refs[i as int] + ascii_view(", "@));
            assert(base + refs.take(i as int).flat_map(ref_piece()) + e.references@[i as int]@
                + ascii_view(", "@) =~= base + refs.take(i + 1).flat_map(ref_piece()));
        }
        i += 1;
    }
    proof {
        assert(refs.take(refs.len() as int) =~= refs);
    }
    push_all(out, ascii_bytes("@"));
    push_all(out, e.author.as_slice());
    push_all(out, ascii_bytes(")\n"));
    proof {
        assert(out@ =~= old(out)@ + render_item(e@));
    }
}

/// Appends the block of target `t` and category `c`, headed by `h`.
fn append_category(
    out: &mut Vec<u8>,
    es: &Vec<PendingChangelogEntry>,
    t: Target,
    c: Category,
    h: &str,
)
    requires
        vstd::string::is_ascii(h),
    ensures
        final(out)@ == old(out)@ + category_block(es.deep_view(), t, c, h@),
{
    proof {
        reveal_strlit("\n");
    }
    let ghost d = es.deep_view();
    let mut any = false;
    let mut i: usize = 0;
    while i < es.len()
        invariant
            i <= d.len(),
            d == es.deep_view(),
            any == exists|j: int| 0 <= j < i && d[j].target == t && category_of(d[j]) == c,
        decreases d.len() - i,
    {
        let e = &es[i];
        if e.target == t && category(e) == c {
            proof {
                assert(d[i as int].target == t && category_of(d[i as int]) == c);
            }
            any = true;
        }
        i += 1;
    }
    if any {
        push_all(out, ascii_bytes("\n"));
        push_all(out, ascii_bytes(h));
        let ghost base = out@;
        proof {
            assert(d.take(0) =~= Seq::<EntryView>::empty());
            assert(Seq::<EntryView>::empty().flat_map(item_renderer(t, c)) =~= Seq::<u8>::empty());
            assert(out@ =~= base + d.take(0).flat_map(item_renderer(t, c)));
        }
        let mut k: usize = 0;
        while k < es.len()
            invariant
                k <= d.len(),
                d == es.deep_view(),
                out@ == base + d.take(k as int).flat_map(item_renderer(t, c)),
            decreases d.len() - k,
        {
            let e = &es[k];
            proof {
                d.lemma_flat_map_take_append(item_renderer(t, c), k as int);
            }
            if e.target == t && category(e) == c {
                render_item_into(out, e);
                proof {
                    assert(item_renderer(t, c)(d[k as int]) == render_item(d[k as int]));
                    assert(base + d.take(k as int).flat_map(item_renderer(t, c)) + render_item(
                        d[k as int],
                    ) =~= base + d.take(k + 1).flat_map(item_renderer(t, c)));
                }
            } else {
                proof {
                    assert(item_renderer(t, c)(d[k as int]) == Seq::<u8>::empty());
                    assert(base + d.take(k as int).flat_map(item_renderer(t, c)) + Seq::<
                        u8,
                    >::empty() =~= base + d.take(k as int).flat_map(item_renderer(t, c)));
                    assert(base + d.take(k as int).flat_map(item_renderer(t, c)) =~= base + d.take(
                        k + 1,
                    ).flat_map(item_renderer(t, c)));
                }
            }
            k += 1;
        }
        proof {
            assert(d.take(d.len() as int) =~= d);
            assert(out@ =~= old(out)@ + category_block(d, t, c, h@));
        }
    } else {
        proof {
            assert(out@ =~= old(out)@ + category_block(d, t, c, h@));
        }
    }
}

/// Renders the release section of target `t` from the full entry list.
pub fn render_section_bytes(
    version: &[u8],
    date: &[u8],
    es: &Vec<PendingChangelogEntry>,
    t: Target,
) -> (r: Vec<u8>)
    ensures
        r@ == render_section(version@, date@, es.deep_view(), t),
{
    proof {
        reveal_strlit("## ");
        reveal_strlit(" (");
        reveal_strlit(")\n");
    }
    let mut out: Vec<u8> = Vec::new();
    push_all(&mut out, ascii_bytes("## "));
    push_all(&mut out, version);
    push_all(&mut out, ascii_bytes(" ("));
    push_all(&mut out, date);
    push_all(&mut out, ascii_bytes(")\n"));
    proof {
        assert(out@ =~= section_header(version@, date@));
    }
    proof {
        reveal_strlit("### Breaking changes\n");
        reveal_strlit("### New features\n");
        reveal_strlit("### Bug fixes\n");
        reveal_strlit("### Other changes\n");
    }
    append_category(&mut out, es, t, Category::Breaking, "### Breaking changes\n");
    append_category(&mut out, es, t, Category::Feature, "### New features\n");
    append_category(&mut out, es, t, Category::Bug, "### Bug fixes\n");
    append_category(&mut out, es, t, Category::Other, "### Other changes\n");
    proof {
        assert(out@ =~= render_section(version@, date@, es.deep_view(), t));
    }
    out
}

/// Whether some parsed entry is routed to target `t`.
pub fn has_target_entries(es: &Vec<PendingChangelogEntry>, t: Target) -> (r: bool)
    ensures
        r == has_target(es.deep_view(), t),
{
    let ghost d = es.deep_view();
    let mut any = false;
    let mut i: usize = 0;
    while i < es.len()
        invariant
            i <= d.len(),
            d == es.deep_view(),
            any == exists|j: int| 0 <= j < i && d[j].target == t,
        decreases d.len() - i,
    {
        if es[i].target == t {
            proof {
                assert(d[i as int].target == t);
            }
            any = true;
        }
        i += 1;
    }
    any
}

/// The persistent state the engine works on: the two changelog documents and
/// the pending-entries queue, loaded into memory.
pub struct ChangelogState {
    pub smithy_doc: Vec<u8>,
    pub sdk_doc: Vec<u8>,
    pub pending: Vec<u8>,
}

/// The three-phase publish, as one transaction on the in-memory state: load
/// the queue, render one section per non-empty target group, prepend each to
/// its document, and clear the queue.  A malformed queue aborts before any
/// part of the state is touched, so a failed publish changes nothing.
pub fn update_changelogs(
    state: &mut ChangelogState,
    smithy_version: &[u8],
    sdk_version: &[u8],
    date: &[u8],
) -> (r: Result<(), ParseError>)
    ensures
        match r {
            Result::Ok(_) => {
                &&& spec_parse_pending(old(state).pending@) is Ok
                &&& final(state).smithy_doc@ == spec_publish_doc(
                    old(state).smithy_doc@,
                    smithy_version@,
                    date@,
                    spec_parse_pending(old(state).pending@)->Ok_0,
                    Target::Smithy,
                )
                &&& final(state).sdk_doc@ == spec_publish_doc(
                    old(state).sdk_doc@,
                    sdk_version@,
                    date@,
                    spec_parse_pending(old(state).pending@)->Ok_0,
                    Target::Sdk,
                )
                &&& final(state).pending@ == Seq::<u8>::empty()
            },
            Result::Err(e) => {
                &&& spec_parse_pending(old(state).pending@) == Result::<
                    Seq<EntryView>,
                    ParseError,
                >::Err(e)
                &&& final(state).smithy_doc@ == old(state).smithy_doc@
                &&& final(state).sdk_doc@ == old(state).sdk_doc@
                &&& final(state).pending@ == old(state).pending@
            },
        },
{
    let entries = match parse_pending(state.pending.as_slice()) {
        Err(e) => {
            return Err(e);
        },
        Ok(es) => es,
    };
    let ghost es = entries.deep_view();
    if has_target_entries(&entries, Target::Smithy) {
        let mut newdoc = render_section_bytes(smithy_version, date, &entries, Target::Smithy);
        push_all(&mut newdoc, state.smithy_doc.as_slice());
        state.smithy_doc = newdoc;
    }
    if has_target_entries(&entries, Target::Sdk) {
        let mut newdoc = render_section_bytes(sdk_version, date, &entries, Target::Sdk);
        push_all(&mut newdoc, state.sdk_doc.as_slice());
        state.sdk_doc = newdoc;
    }
    state.pending = Vec::new();
    Ok(())
}

/// Whether an entry is routed to target `t`.
pub open spec fn target_pred(t: Target) -> spec_fn(EntryView) -> bool {
    |e: EntryView| e.target == t
}

/// The entries routed to target `t`, in their original order.
pub open spec fn entries_for_target(es: Seq<EntryView>, t: Target) -> Seq<EntryView> {
    es.filter(target_pred(t))
}

/// Idempotent publish: an empty queue parses to no entries, and publishing no
/// entries leaves any document exactly as it was.
pub proof fn lemma_idempotent_publish(doc: Seq<u8>, version: Seq<u8>, date: Seq<u8>, t: Target)
    ensures
        spec_parse_pending(Seq::empty()) == Result::<Seq<EntryView>, ParseError>::Ok(
            Seq::<EntryView>::empty(),
        ),
        spec_publish_doc(doc, version, date, Seq::empty(), t) == doc,
{
    assert(spec_split(Seq::empty(), LINE_FEED) == seq![Seq::<u8>::empty()]);
    seq![Seq::<u8>::empty()].lemma_flat_map_singleton(crate::bytes::keep_line());
    assert(crate::bytes::keep_line()(Seq::<u8>::empty()) == Seq::<Seq<u8>>::empty());
    assert(spec_split_nonblank(Seq::empty(), LINE_FEED) == Seq::<Seq<u8>>::empty());
    assert(spec_parse_groups(Seq::<Seq<u8>>::empty(), 0) == Result::<
        Seq<EntryView>,
        ParseError,
    >::Ok(Seq::<EntryView>::empty()));
    assert(!has_target(Seq::<EntryView>::empty(), t));
}

/// No duplication: the two target groups partition the parsed entries.  Every
/// entry is routed to exactly one of the two documents — the group sizes add
/// up to the whole queue, each group holds only its own target's entries, and
/// every entry is present in the group of its target.
pub proof fn lemma_entries_route_once(es: Seq<EntryView>)
    ensures
        entries_for_target(es, Target::Smithy).len() + entries_for_target(es, Target::Sdk).len()
            == es.len(),
        forall|e: EntryView| #[trigger]
            entries_for_target(es, Target::Smithy).contains(e) ==> e.target == Target::Smithy,
        forall|e: EntryView| #[trigger]
            entries_for_target(es, Target::Sdk).contains(e) ==> e.target == Target::Sdk,
        forall|i: int|
            0 <= i < es.len() ==> entries_for_target(es, #[trigger] es[i].target).contains(es[i]),
    decreases es.len(),
{
    reveal(Seq::filter);
    let ps = target_pred(Target::Smithy);
    let pk = target_pred(Target::Sdk);
    if es.len() == 0 {
        assert(entries_for_target(es, Target::Smithy).len() == 0);
        assert(entries_for_target(es, Target::Sdk).len() == 0);
    } else {
        let front = es.drop_last();
        let last = es.last();
        lemma_entries_route_once(front);
        assert(ps(last) || pk(last));
        assert(!(ps(last) && pk(last)));
        assert(entries_for_target(es, Target::Smithy).len() + entries_for_target(
            es,
            Target::Sdk,
        ).len() == es.len());
    }
    assert forall|e: EntryView| #[trigger]
        entries_for_target(es, Target::Smithy).contains(e) implies e.target == Target::Smithy by {
        let j = choose|j: int|
            0 <= j < entries_for_target(es, Target::Smithy).len() && entries_for_target(
                es,
                Target::Smithy,
            )[j] == e;
        es.lemma_filter_pred(ps, j);
    }
    assert forall|e: EntryView| #[trigger]
        entries_for_target(es, Target::Sdk).contains(e) implies e.target == Target::Sdk by {
        let j = choose|j: int|
            0 <= j < entries_for_target(es, Target::Sdk).len() && entries_for_target(
                es,
                Target::Sdk,
            )[j] == e;
        es.lemma_filter_pred(pk, j);
    }
    assert forall|i: int| 0 <= i < es.len() implies entries_for_target(
        es,
        #[trigger] es[i].target,
    ).contains(es[i]) by {
        es.lemma_filter_contains(target_pred(es[i].target), i);
        assert(target_pred(es[i].target)(es[i]));
    }
}

/// What a section renders for target `t` comes from the entries routed to
/// `t` alone: dropping every other target's entries first changes no block.
/// Together with [`lemma_entries_route_once`], an entry's rendered item lands
/// in exactly the one document its target selects.
pub proof fn lemma_items_follow_routing(es: Seq<EntryView>, t: Target, c: Category)
    ensures
        es.flat_map(item_renderer(t, c)) == entries_for_target(es, t).flat_map(item_renderer(t, c)),
    decreases es.len(),
{
    reveal(Seq::filter);
    let f = item_renderer(t, c);
    let p = target_pred(t);
    if es.len() == 0 {
        assert(es.flat_map(f) =~= Seq::<u8>::empty());
        assert(entries_for_target(es, t) == es);
    } else {
        let front = es.drop_last();
        let last = es.last();
        lemma_items_follow_routing(front, t, c);
        assert(front.push(last) =~= es);
        front.lemma_flat_map_push(f, last);
        assert(es.flat_map(f) == front.flat_map(f) + f(last));
        if p(last) {
            assert(entries_for_target(es, t) == entries_for_target(front, t).push(last));
            entries_for_target(front, t).lemma_flat_map_push(f, last);
        } else {
            assert(entries_for_target(es, t) == entries_for_target(front, t));
            assert(f(last) == Seq::<u8>::empty());
            assert(front.flat_map(f) + Seq::<u8>::empty() =~= front.flat_map(f));
        }
    }
}

/// Ordering: two entries with the same target, submitted breaking-change
/// first and bug-fix second, render with the breaking item strictly before
/// the bug-fix item, each under its own heading, and nothing else in the
/// section body.
pub proof fn lemma_section_orders_categories(
    version: Seq<u8>,
    date: Seq<u8>,
    e1: EntryView,
    e2: EntryView,
    t: Target,
)
    requires
        e1.target == t,
        category_of(e1) == Category::Breaking,
        e2.target == t,
        category_of(e2) == Category::Bug,
    ensures
        render_section(version, date, seq![e1, e2], t) == section_header(version, date) + (
        ascii_view("\n"@) + ascii_view("### Breaking changes\n"@) + render_item(e1)) + (ascii_view(
            "\n"@,
        ) + ascii_view("### Bug fixes\n"@) + render_item(e2)),
{
    let es = seq![e1, e2];
    assert(seq![e1].push(e2) =~= es);
    let fb = item_renderer(t, Category::Breaking);
    let ff = item_renderer(t, Category::Feature);
    let fg = item_renderer(t, Category::Bug);
    let fo = item_renderer(t, Category::Other);
    seq![e1].lemma_flat_map_singleton(fb);
    seq![e1].lemma_flat_map_push(fb, e2);
    seq![e1].lemma_flat_map_singleton(ff);
    seq![e1].lemma_flat_map_push(ff, e2);
    seq![e1].lemma_flat_map_singleton(fg);
    seq![e1].lemma_flat_map_push(fg, e2);
    seq![e1].lemma_flat_map_singleton(fo);
    seq![e1].lemma_flat_map_push(fo, e2);
    assert(has_entry(es, t, Category::Breaking)) by {
        assert(es[0].target == t && category_of(es[0]) == Category::Breaking);
    }
    assert(has_entry(es, t, Category::Bug)) by {
        assert(es[1].target == t && category_of(es[1]) == Category::Bug);
    }
    assert(!has_entry(es, t, Category::Feature)) by {
        assert forall|i: int| 0 <= i < es.len() implies !(es[i].target == t && category_of(es[i])
            == Category::Feature) by {
            if i == 0 {
                assert(category_of(es[0]) == Category::Breaking);
            } else {
                assert(category_of(es[1]) == Category::Bug);
            }
        }
    }
    assert(!has_entry(es, t, Category::Other)) by {
        assert forall|i: int| 0 <= i < es.len() implies !(es[i].target == t && category_of(es[i])
            == Category::Other) by {
            if i == 0 {
                assert(category_of(es[0]) == Category::Breaking);
            } else {
                assert(category_of(es[1]) == Category::Bug);
            }
        }
    }
    assert(es.flat_map(fb) =~= render_item(e1)) by {
        assert(fb(e1) == render_item(e1));
        assert(fb(e2) == Seq::<u8>::empty());
    }
    assert(es.flat_map(fg) =~= render_item(e2)) by {
        assert(fg(e1) == Seq::<u8>::empty());
        assert(fg(e2) == render_item(e2));
    }
    assert(category_block(es, t, Category::Feature, "### New features\n"@) == Seq::<u8>::empty());
    assert(category_block(es, t, Category::Other, "### Other changes\n"@) == Seq::<u8>::empty());
    assert(render_section(version, date, es, t) =~= section_header(version, date) + (ascii_view(
        "\n"@,
    ) + ascii_view("### Breaking changes\n"@) + render_item(e1)) + (ascii_view("\n"@) + ascii_view(
        "### Bug fixes\n"@,
    ) + render_item(e2)));
}

} // verus!
