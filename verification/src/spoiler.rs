//! The categorized hints of a spoiler log and the parser that fills them.

use crate::extract::{
    is_end_line, is_marker_line, law_empty_section, section_between, stream_lines, text_between,
    texts, ExtractionError, ExtractionFailure, SourceLine,
};
use crate::search::{last_true, lemma_first_true_is, lemma_last_true_is};
use crate::text::{
    append_chars, chars_of, contains_chars, contains_text, decimal, decimal_of, delimiter_flags,
    field_after, field_before, find_delimiter, lemma_fields, pad, padded, string_of,
};
use vstd::string::StringExecFns;
use vstd::prelude::*;

verus! {

/// Where an item lies: the short text from the hint line, and the longer
/// description found elsewhere in the log, empty until one is found.
#[derive(Debug)]
pub struct Location {
    pub short: String,
    pub long: String,
}

/// An item, known by its name.
#[derive(Debug)]
pub struct Item {
    pub name: String,
}

/// The width of the column in which item names are shown.
pub const NAME_WIDTH: usize = 32;

impl Item {
    /// The name as it is shown in its column: filled up with blanks to
    /// `NAME_WIDTH` characters, and whole where it is longer.
    pub fn padded_name(&self) -> (r: String)
        ensures
            r@ == padded(self.name@, NAME_WIDTH as nat),
    {
        pad(self.name.as_str(), NAME_WIDTH)
    }
}

/// The four kinds of hints that a log lists.
#[derive(Debug, Clone, Copy, PartialEq, Eq, Structural)]
pub enum CategoryType {
    Key,
    Quest,
    Upgrade,
    Healing,
}

/// The hints of one category, in the order of their lines in the log.
#[derive(Debug)]
pub struct CategorizedSpoilers {
    pub category: CategoryType,
    pub item_map: Vec<(Item, Location)>,
}

/// One hint over plain values.
pub struct Record {
    pub name: Seq<char>,
    pub short: Seq<char>,
    pub long: Seq<char>,
}

/// The record that a pair of item and location stands for.
pub open spec fn record_of(pair: (Item, Location)) -> Record {
    Record { name: pair.0.name@, short: pair.1.short@, long: pair.1.long@ }
}

/// The records that a list of pairs stands for.
pub open spec fn records(pairs: Seq<(Item, Location)>) -> Seq<Record> {
    Seq::new(pairs.len(), |i: int| record_of(pairs[i]))
}

/// The field delimiter of a hint line.
pub open spec fn delimiter() -> char {
    ':'
}

/// The record that a hint line holds: the name before the first delimiter,
/// the short location after it, and no long description yet. A line without
/// delimiter is all name.
pub open spec fn parsed_record(line: Seq<char>) -> Record {
    Record {
        name: field_before(line, delimiter()),
        short: field_after(line, delimiter()),
        long: Seq::empty(),
    }
}

/// The records that the lines of a section hold, in their order.
pub open spec fn parsed_records(section: Seq<Seq<char>>) -> Seq<Record> {
    Seq::new(section.len(), |i: int| parsed_record(section[i]))
}

/// Splits a hint line at its first `:` into item and location.
pub fn parse_line(line: &str) -> (r: (Item, Location))
    ensures
        record_of(r) == parsed_record(line@),
{
    let chars = chars_of(line);
    let k = find_delimiter(&chars, ':');
    let name = string_of(&chars, 0, k);
    let short = if k < chars.len() {
        string_of(&chars, k + 1, chars.len())
    } else {
        String::new()
    };
    (Item { name }, Location { short, long: String::new() })
}

impl CategoryType {
    /// The text of the line that opens this category's section in a log.
    pub open spec fn marker_text(self) -> Seq<char> {
        match self {
            CategoryType::Key => "-- Hints for key items:"@,
            CategoryType::Quest => "-- Hints for quest items:"@,
            CategoryType::Upgrade => "-- Hints for upgrade items:"@,
            CategoryType::Healing => "-- Hints for healing items:"@,
        }
    }

    /// The heading under which this category is shown.
    pub open spec fn label_text(self) -> Seq<char> {
        match self {
            CategoryType::Key => "Key"@,
            CategoryType::Quest => "Quest"@,
            CategoryType::Upgrade => "Upgrade"@,
            CategoryType::Healing => "Healing"@,
        }
    }

    /// The text of the line that opens this category's section in a log.
    pub fn marker(&self) -> (r: &'static str)
        ensures
            r@ == self.marker_text(),
    {
        match self {
            CategoryType::Key => "-- Hints for key items:",
            CategoryType::Quest => "-- Hints for quest items:",
            CategoryType::Upgrade => "-- Hints for upgrade items:",
            CategoryType::Healing => "-- Hints for healing items:",
        }
    }

    /// The heading under which this category is shown.
    pub fn label(&self) -> (r: &'static str)
        ensures
            r@ == self.label_text(),
    {
        match self {
            CategoryType::Key => "Key",
            CategoryType::Quest => "Quest",
            CategoryType::Upgrade => "Upgrade",
            CategoryType::Healing => "Healing",
        }
    }
}

/// The text that is looked for to find an item's long description: the
/// item's name, a blank and the word `in`.
pub open spec fn search_key(name: Seq<char>) -> Seq<char> {
    name + seq![' ', 'i', 'n']
}

/// For each line, whether it can be read and holds `key`, untrimmed.
pub open spec fn mention_flags(lines: Seq<Option<Seq<char>>>, key: Seq<char>) -> Seq<bool> {
    Seq::new(lines.len(), |i: int| lines[i] matches Some(t) && contains_text(t, key))
}

/// The position of the last line that holds `key`, or `-1`.
pub open spec fn last_mention(lines: Seq<Option<Seq<char>>>, key: Seq<char>) -> int {
    last_true(mention_flags(lines, key), lines.len() as int)
}

/// Whether a later record has the name of the record at `k`. Of records with
/// one name, only the last is found by that name.
pub open spec fn name_recurs(records: Seq<Record>, k: int) -> bool {
    exists|j: int| k < j < records.len() && #[trigger] records[j].name == records[k].name
}

/// The record at `k` after the search for long descriptions: where its name
/// does not recur and some line holds its search key, its long description
/// is the whole of the last such line; else the record is unchanged.
pub open spec fn enriched_record(
    records: Seq<Record>,
    lines: Seq<Option<Seq<char>>>,
    k: int,
) -> Record {
    let m = last_mention(lines, search_key(records[k].name));
    if m >= 0 && !name_recurs(records, k) {
        Record { name: records[k].name, short: records[k].short, long: lines[m]->0 }
    } else {
        records[k]
    }
}

/// The records after the search for long descriptions in `lines`.
pub open spec fn enriched(records: Seq<Record>, lines: Seq<Option<Seq<char>>>) -> Seq<Record> {
    Seq::new(records.len(), |k: int| enriched_record(records, lines, k))
}

/// The search key of `name`.
pub fn search_key_of(name: &str) -> (r: Vec<char>)
    ensures
        r@ == search_key(name@),
{
    let mut key = chars_of(name);
    key.push(' ');
    key.push('i');
    key.push('n');
    assert(key@ =~= search_key(name@));
    key
}

/// The position of the last line of `stream` that holds `key`.
pub fn find_last_mention(stream: &Vec<SourceLine>, key: &Vec<char>) -> (r: Option<usize>)
    ensures
        match r {
            Some(m) => m < stream.len() && m == last_mention(stream_lines(stream@), key@)
                && mention_flags(stream_lines(stream@), key@)[m as int],
            None => last_mention(stream_lines(stream@), key@) == -1,
        },
{
    let ghost lines = stream_lines(stream@);
    let ghost flags = mention_flags(lines, key@);
    let mut i: usize = stream.len();
    while i > 0
        invariant
            i <= stream.len(),
            lines == stream_lines(stream@),
            flags == mention_flags(lines, key@),
            forall|j: int| i <= j < stream.len() ==> !flags[j],
        decreases i,
    {
        i -= 1;
        match &stream[i] {
            SourceLine::Text(t) => {
                assert(lines[i as int] == Some(t@));
                if contains_chars(&chars_of(t.as_str()), key) {
                    proof {
                        lemma_last_true_is(flags, lines.len() as int, i as int);
                    }
                    return Some(i);
                }
            },
            SourceLine::Unreadable => {
                assert(lines[i as int] is None);
            },
        }
    }
    proof {
        lemma_last_true_is(flags, lines.len() as int, -1);
    }
    None
}

/// Whether a pair after position `k` has the name of the pair at `k`.
pub fn recurs_later(pairs: &Vec<(Item, Location)>, k: usize) -> (r: bool)
    requires
        k < pairs.len(),
    ensures
        r == name_recurs(records(pairs@), k as int),
{
    let ghost recs = records(pairs@);
    let mut j: usize = k + 1;
    while j < pairs.len()
        invariant
            k < j <= pairs.len(),
            recs == records(pairs@),
            forall|i: int| k < i < j ==> recs[i].name != recs[k as int].name,
        decreases pairs.len() - j,
    {
        if pairs[j].0.name == pairs[k].0.name {
            assert(recs[j as int].name == recs[k as int].name);
            return true;
        }
        j += 1;
    }
    false
}

impl CategorizedSpoilers {
    /// The records that the category holds.
    pub open spec fn records(&self) -> Seq<Record> {
        records(self.item_map@)
    }

    /// A category without hints.
    pub fn new(category: CategoryType) -> (r: Self)
        ensures
            r.category == category,
            r.item_map@.len() == 0,
    {
        Self { category, item_map: vec![] }
    }

    /// Fills in the long descriptions from the lines of `stream`: an item,
    /// as the last of its name, gets the whole of the last line that holds its
    /// name followed by ` in`. Lines that cannot be read are passed over.
    pub fn find_long_descriptions(&mut self, stream: &Vec<SourceLine>)
        ensures
            final(self).category == old(self).category,
            final(self).records() == enriched(old(self).records(), stream_lines(stream@)),
    {
        let ghost lines = stream_lines(stream@);
        let ghost recs = self.records();
        let n = self.item_map.len();
        let mut updated: Vec<(Item, Location)> = Vec::new();
        let mut k: usize = 0;
        while k < n
            invariant
                k <= n == self.item_map.len(),
                *self == *old(self),
                recs == self.records(),
                lines == stream_lines(stream@),
                updated@.len() == k,
                forall|j: int| 0 <= j < k ==> record_of(updated@[j]) == enriched_record(recs, lines, j),
            decreases n - k,
        {
            let name = self.item_map[k].0.name.clone();
            let short = self.item_map[k].1.short.clone();
            let mut long = self.item_map[k].1.long.clone();
            assert(recs[k as int] == record_of(self.item_map@[k as int]));
            if !recurs_later(&self.item_map, k) {
                let key = search_key_of(name.as_str());
                match find_last_mention(stream, &key) {
                    Some(m) => {
                        match &stream[m] {
                            SourceLine::Text(t) => {
                                long = t.clone();
                            },
                            SourceLine::Unreadable => {
                                assert(lines[m as int] is None);
                            },
                        }
                    },
                    None => {},
                }
            }
            updated.push((Item { name }, Location { short, long }));
            k += 1;
        }
        self.item_map = updated;
        assert(self.records() =~= enriched(recs, lines));
    }
}

/// The whole of what a log tells: its path and the hints of each category.
#[derive(Debug)]
pub struct Spoilers {
    pub source_file: String,
    pub key_items: CategorizedSpoilers,
    pub quest_items: CategorizedSpoilers,
    pub upgrade_items: CategorizedSpoilers,
    pub healing_items: CategorizedSpoilers,
}

/// A `Spoilers` over plain values.
pub struct Document {
    pub source_file: Seq<char>,
    pub key_items: Seq<Record>,
    pub quest_items: Seq<Record>,
    pub upgrade_items: Seq<Record>,
    pub healing_items: Seq<Record>,
}

/// A category that was left empty because its section could not be
/// extracted.
#[derive(Debug)]
pub struct Warning {
    pub category: CategoryType,
    pub marker: String,
    pub error: ExtractionError,
}

/// A `Warning` over plain values.
pub struct WarningView {
    pub category: CategoryType,
    pub marker: Seq<char>,
    pub failure: ExtractionFailure,
}

impl View for Warning {
    type V = WarningView;

    open spec fn view(&self) -> WarningView {
        WarningView { category: self.category, marker: self.marker@, failure: self.error@ }
    }
}

/// The views of a list of warnings.
pub open spec fn warning_views(warnings: Seq<Warning>) -> Seq<WarningView> {
    Seq::new(warnings.len(), |i: int| warnings[i]@)
}

/// What is shown for a failure.
pub open spec fn failure_text(failure: ExtractionFailure) -> Seq<char> {
    match failure {
        ExtractionFailure::Io { line } => "Could not read line "@ + decimal(line as nat),
        ExtractionFailure::PatternNotFound { marker } => {
            "Read to end of file without finding match ("@ + marker + ")"@
        },
    }
}

/// What is shown for a warning: the category's heading, then the failure.
pub open spec fn warning_text(warning: WarningView) -> Seq<char> {
    warning.category.label_text() + ": "@ + failure_text(warning.failure)
}

impl ExtractionError {
    /// The text that is shown for this failure.
    pub fn message(&self) -> (r: String)
        ensures
            r@ == failure_text(self@),
    {
        match self {
            ExtractionError::IoError { line } => {
                let mut out = String::from_str("Could not read line ");
                append_chars(&mut out, &decimal_of(*line));
                out
            },
            ExtractionError::PatternNotFound { marker } => {
                let mut out = String::from_str("Read to end of file without finding match (");
                out.append(marker.as_str());
                out.append(")");
                out
            },
        }
    }
}

impl Warning {
    /// The text that is shown for this warning.
    pub fn message(&self) -> (r: String)
        ensures
            r@ == warning_text(self@),
    {
        let mut out = String::from_str(self.category.label());
        out.append(": ");
        out.append(self.error.message().as_str());
        assert(out@ =~= warning_text(self@));
        out
    }
}

/// The records of one category of a log: those of the section that `marker`
/// opens and a blank line closes, with their long descriptions; none where
/// the section cannot be extracted.
pub open spec fn category_records(lines: Seq<Option<Seq<char>>>, marker: Seq<char>) -> Seq<
    Record,
> {
    match section_between(lines, marker, Seq::empty()) {
        Ok(section) => enriched(parsed_records(section), lines),
        Err(_) => Seq::empty(),
    }
}

/// The warning for one category of a log: none where its section can be
/// extracted, else one that tells the category, its marker and the failure.
pub open spec fn category_warnings(lines: Seq<Option<Seq<char>>>, category: CategoryType) -> Seq<
    WarningView,
> {
    match section_between(lines, category.marker_text(), Seq::empty()) {
        Ok(_) => Seq::empty(),
        Err(failure) => seq![
            WarningView { category, marker: category.marker_text(), failure },
        ],
    }
}

/// What a log at `path` with the lines `lines` tells.
pub open spec fn document_of(path: Seq<char>, lines: Seq<Option<Seq<char>>>) -> Document {
    Document {
        source_file: path,
        key_items: category_records(lines, CategoryType::Key.marker_text()),
        quest_items: category_records(lines, CategoryType::Quest.marker_text()),
        upgrade_items: category_records(lines, CategoryType::Upgrade.marker_text()),
        healing_items: category_records(lines, CategoryType::Healing.marker_text()),
    }
}

/// The warnings that a log with the lines `lines` gives, in the order of the
/// categories: key, quest, upgrade, healing.
pub open spec fn warnings_of(lines: Seq<Option<Seq<char>>>) -> Seq<WarningView> {
    category_warnings(lines, CategoryType::Key) + category_warnings(lines, CategoryType::Quest)
        + category_warnings(lines, CategoryType::Upgrade) + category_warnings(
        lines,
        CategoryType::Healing,
    )
}

impl View for Spoilers {
    type V = Document;

    open spec fn view(&self) -> Document {
        Document {
            source_file: self.source_file@,
            key_items: self.key_items.records(),
            quest_items: self.quest_items.records(),
            upgrade_items: self.upgrade_items.records(),
            healing_items: self.healing_items.records(),
        }
    }
}

impl Spoilers {
    /// Whether each category carries its own tag.
    pub open spec fn well_formed(&self) -> bool {
        &&& self.key_items.category == CategoryType::Key
        &&& self.quest_items.category == CategoryType::Quest
        &&& self.upgrade_items.category == CategoryType::Upgrade
        &&& self.healing_items.category == CategoryType::Healing
    }

    /// Whether the four tags of `self` are those of `other`.
    pub open spec fn same_tags(&self, other: &Spoilers) -> bool {
        &&& self.key_items.category == other.key_items.category
        &&& self.quest_items.category == other.quest_items.category
        &&& self.upgrade_items.category == other.upgrade_items.category
        &&& self.healing_items.category == other.healing_items.category
    }

    /// Whether `after` is what reading the log at `path` with the lines
    /// `lines` makes of `before`.
    pub open spec fn reads_as(
        before: &Spoilers,
        path: Seq<char>,
        lines: Seq<Option<Seq<char>>>,
        after: &Spoilers,
    ) -> bool {
        after@ == document_of(path, lines) && after.same_tags(before)
    }

    /// An empty document with no source.
    pub fn new() -> (r: Self)
        ensures
            r.well_formed(),
            r.source_file@.len() == 0,
            r.key_items.item_map@.len() == 0,
            r.quest_items.item_map@.len() == 0,
            r.upgrade_items.item_map@.len() == 0,
            r.healing_items.item_map@.len() == 0,
    {
        Self {
            source_file: String::new(),
            key_items: CategorizedSpoilers::new(CategoryType::Key),
            quest_items: CategorizedSpoilers::new(CategoryType::Quest),
            upgrade_items: CategorizedSpoilers::new(CategoryType::Upgrade),
            healing_items: CategorizedSpoilers::new(CategoryType::Healing),
        }
    }

    /// Replaces the hints of `spoiler_chunk` with those of the section that
    /// `pattern` opens and a blank line closes. Where the section cannot be
    /// extracted the category is left empty and the failure is returned.
    pub fn populate_hints_from_pattern(
        stream: &Vec<SourceLine>,
        spoiler_chunk: &mut CategorizedSpoilers,
        pattern: &str,
    ) -> (r: Result<(), ExtractionError>)
        ensures
            final(spoiler_chunk).category == old(spoiler_chunk).category,
            match section_between(stream_lines(stream@), pattern@, Seq::empty()) {
                Ok(section) => r is Ok && final(spoiler_chunk).records() == parsed_records(section),
                Err(failure) => {
                    &&& r is Err
                    &&& r->Err_0@ == failure
                    &&& final(spoiler_chunk).item_map@.len() == 0
                },
            },
    {
        proof {
            reveal_strlit("");
            assert(""@ =~= Seq::<char>::empty());
        }
        let section = text_between(stream, pattern, "");
        let mut pairs: Vec<(Item, Location)> = Vec::new();
        match section {
            Err(e) => {
                spoiler_chunk.item_map = pairs;
                Err(e)
            },
            Ok(found) => {
                let mut i: usize = 0;
                while i < found.len()
                    invariant
                        i <= found.len(),
                        pairs@.len() == i,
                        forall|j: int|
                            0 <= j < i ==> record_of(pairs@[j]) == parsed_record(found@[j]@),
                    decreases found.len() - i,
                {
                    pairs.push(parse_line(found[i].as_str()));
                    i += 1;
                }
                spoiler_chunk.item_map = pairs;
                assert(spoiler_chunk.records() =~= parsed_records(texts(found@)));
                Ok(())
            },
        }
    }

    /// Reads the log at `path`, whose lines are `stream`, into `self`: every
    /// category is replaced by what its section holds, with the long
    /// descriptions filled in, and a category whose section cannot be
    /// extracted is left empty and reported in the result.
    pub fn read_file(&mut self, path: &str, stream: &Vec<SourceLine>) -> (r: Vec<Warning>)
        ensures
            Spoilers::reads_as(old(self), path@, stream_lines(stream@), final(self)),
            warning_views(r@) == warnings_of(stream_lines(stream@)),
    {
        let ghost lines = stream_lines(stream@);
        self.source_file = path.to_owned();
        let mut warnings: Vec<Warning> = Vec::new();
        Self::populate_category(stream, &mut self.key_items, CategoryType::Key, &mut warnings);
        Self::populate_category(stream, &mut self.quest_items, CategoryType::Quest, &mut warnings);
        Self::populate_category(
            stream,
            &mut self.upgrade_items,
            CategoryType::Upgrade,
            &mut warnings,
        );
        Self::populate_category(
            stream,
            &mut self.healing_items,
            CategoryType::Healing,
            &mut warnings,
        );
        self.key_items.find_long_descriptions(stream);
        self.quest_items.find_long_descriptions(stream);
        self.upgrade_items.find_long_descriptions(stream);
        self.healing_items.find_long_descriptions(stream);
        proof {
            lemma_enriched_empty(lines);
            assert(warning_views(warnings@) =~= warnings_of(lines));
        }
        warnings
    }

    /// Fills `spoiler_chunk` from the section of `category` and appends a
    /// warning where the section cannot be extracted.
    fn populate_category(
        stream: &Vec<SourceLine>,
        spoiler_chunk: &mut CategorizedSpoilers,
        category: CategoryType,
        warnings: &mut Vec<Warning>,
    )
        ensures
            final(spoiler_chunk).category == old(spoiler_chunk).category,
            final(spoiler_chunk).records() == match section_between(
                stream_lines(stream@),
                category.marker_text(),
                Seq::empty(),
            ) {
                Ok(section) => parsed_records(section),
                Err(_) => Seq::empty(),
            },
            warning_views(final(warnings)@) == warning_views(old(warnings)@) + category_warnings(
                stream_lines(stream@),
                category,
            ),
    {
        let marker = category.marker();
        match Self::populate_hints_from_pattern(stream, spoiler_chunk, marker) {
            Ok(_) => {
                assert(warning_views(warnings@) =~= warning_views(old(warnings)@)
                    + category_warnings(stream_lines(stream@), category));
            },
            Err(error) => {
                assert(spoiler_chunk.records() =~= Seq::<Record>::empty());
                warnings.push(Warning { category, marker: marker.to_owned(), error });
                assert(warning_views(warnings@) =~= warning_views(old(warnings)@)
                    + category_warnings(stream_lines(stream@), category));
            },
        }
    }
}

/// The search for long descriptions leaves an empty category empty.
pub proof fn lemma_enriched_empty(lines: Seq<Option<Seq<char>>>)
    ensures
        enriched(Seq::<Record>::empty(), lines) == Seq::<Record>::empty(),
{
    assert(enriched(Seq::<Record>::empty(), lines) =~= Seq::<Record>::empty());
}

/// A line without delimiter is all name, and its short location is empty.
pub proof fn law_line_without_delimiter(line: Seq<char>)
    requires
        !line.contains(delimiter()),
    ensures
        parsed_record(line) == (Record { name: line, short: Seq::empty(), long: Seq::empty() }),
{
    lemma_fields(line, delimiter());
    assert(parsed_record(line).short =~= Seq::<char>::empty());
}

/// A name without delimiter, the delimiter and a short location make a line
/// that parses back to that name and that location, whatever the location
/// holds.
pub proof fn law_line_with_delimiter(name: Seq<char>, short: Seq<char>)
    requires
        !name.contains(delimiter()),
    ensures
        parsed_record(name + seq![delimiter()] + short) == (Record {
            name,
            short,
            long: Seq::empty(),
        }),
{
    let line = name + seq![delimiter()] + short;
    let flags = delimiter_flags(line, delimiter());
    assert forall|j: int| 0 <= j < name.len() implies !flags[j] by {
        assert(line[j] == name[j]);
        assert(name.contains(name[j]));
    }
    assert(flags[name.len() as int]);
    lemma_first_true_is(flags, 0, name.len() as int);
    assert(parsed_record(line).name =~= name);
    assert(parsed_record(line).short =~= short);
}

/// The last line that holds an item's name followed by ` in` becomes the
/// item's long description, whole and untrimmed, where no later record has
/// the same name: of several such lines the last wins. Name and short
/// location stay.
pub proof fn law_last_match_wins(
    records: Seq<Record>,
    lines: Seq<Option<Seq<char>>>,
    k: int,
    m: int,
)
    requires
        0 <= k < records.len(),
        !name_recurs(records, k),
        0 <= m < lines.len(),
        lines[m] is Some,
        contains_text(lines[m]->0, search_key(records[k].name)),
        forall|j: int|
            m < j < lines.len() && lines[j] is Some ==> !contains_text(
                lines[j]->0,
                search_key(records[k].name),
            ),
    ensures
        enriched(records, lines).len() == records.len(),
        enriched(records, lines)[k] == (Record {
            name: records[k].name,
            short: records[k].short,
            long: lines[m]->0,
        }),
{
    let flags = mention_flags(lines, search_key(records[k].name));
    assert(flags[m]);
    assert forall|j: int| m < j < lines.len() implies !flags[j] by {}
    lemma_last_true_is(flags, lines.len() as int, m);
}

/// Where no line holds an item's name followed by ` in`, or a later record
/// has the same name, the search leaves the record as it was.
pub proof fn law_no_match_keeps(records: Seq<Record>, lines: Seq<Option<Seq<char>>>, k: int)
    requires
        0 <= k < records.len(),
        name_recurs(records, k) || forall|j: int|
            0 <= j < lines.len() && lines[j] is Some ==> !contains_text(
                lines[j]->0,
                search_key(records[k].name),
            ),
    ensures
        enriched(records, lines)[k] == records[k],
{
    if !name_recurs(records, k) {
        let flags = mention_flags(lines, search_key(records[k].name));
        assert forall|j: int| 0 <= j < lines.len() implies !flags[j] by {}
        lemma_last_true_is(flags, lines.len() as int, -1);
    }
}

/// A category whose marker line is followed at once by a blank line has no
/// records and gives no warning.
pub proof fn law_empty_category(lines: Seq<Option<Seq<char>>>, category: CategoryType, s: int)
    requires
        0 <= s,
        s + 1 < lines.len(),
        forall|j: int| 0 <= j <= s + 1 ==> lines[j] is Some,
        forall|j: int| 0 <= j < s ==> !is_marker_line(lines[j], category.marker_text()),
        is_marker_line(lines[s], category.marker_text()),
        is_end_line(lines[s + 1], Seq::empty()),
    ensures
        category_records(lines, category.marker_text()).len() == 0,
        category_warnings(lines, category).len() == 0,
{
    law_empty_section(lines, category.marker_text(), Seq::empty(), s);
    assert(parsed_records(Seq::<Seq<char>>::empty()) =~= Seq::<Record>::empty());
    lemma_enriched_empty(lines);
}

/// Reading depends on the log alone: whatever two documents held before,
/// reading the same path and lines into each leaves them with the same
/// records, and reading once more changes nothing.
pub proof fn law_reading_is_idempotent(
    first: Spoilers,
    second: Spoilers,
    path: Seq<char>,
    lines: Seq<Option<Seq<char>>>,
    after_first: Spoilers,
    after_second: Spoilers,
    after_both: Spoilers,
)
    requires
        Spoilers::reads_as(&first, path, lines, &after_first),
        Spoilers::reads_as(&second, path, lines, &after_second),
        Spoilers::reads_as(&after_first, path, lines, &after_both),
    ensures
        after_first@ == after_second@,
        after_both@ == after_first@,
        after_both.same_tags(&first),
{
}

} // verus!
