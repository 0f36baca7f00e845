//! The searchable option catalog, parsed from the downloader's `--help`
//! output: sections, and in each the options with their flags, argument
//! placeholder, description and whether they are dangerous or sensitive.

use vstd::prelude::*;
use crate::flags::{is_dangerous, is_dangerous_flag, is_sensitive, is_sensitive_flag};
use crate::split::{
    join_ranges, join_with_space, strip_carriage_return, lemma_join_nonempty, lemma_split_on_first,
    lemma_split_on_append, lemma_split_on_no_separator, lemma_split_on_without_separator,
    lemma_words_chars, lemma_words_empty_iff_blank, lemma_words_first,
    lemma_words_shape, line_ranges, lines,
    push_range, ranges_text, ranges_within, split_on, split_ranges, word_ranges, words,
};
use crate::text::{
    chars_of, is_space, lemma_trim_empty_iff_blank, lemma_trim_end_keeps_first,
    lemma_trim_start_skip, push_char, str_equals,
    string_from_range, trim, trim_bounds, trim_end_char,
};

verus! {

/// One option of the catalog.
pub struct CatalogOption {
    /// The option's spellings, such as `-h` and `--help`.
    pub flags: Vec<String>,
    /// The placeholder of its value, such as `DIR`.
    pub argument: Option<String>,
    pub description: String,
    pub dangerous: bool,
    pub sensitive: bool,
}

/// A named group of options.
pub struct CatalogSection {
    pub name: String,
    pub options: Vec<CatalogOption>,
}

/// What a `CatalogOption` holds.
pub struct OptionSpec {
    pub flags: Seq<Seq<char>>,
    pub argument: Option<Seq<char>>,
    pub description: Seq<char>,
    pub dangerous: bool,
    pub sensitive: bool,
}

/// What a `CatalogSection` holds.
pub struct SectionSpec {
    pub name: Seq<char>,
    pub options: Seq<OptionSpec>,
}

/// The characters of an optional string.
pub open spec fn opt_text(o: Option<String>) -> Option<Seq<char>> {
    match o {
        Some(s) => Some(s@),
        None => None,
    }
}

impl DeepView for CatalogOption {
    type V = OptionSpec;

    open spec fn deep_view(&self) -> OptionSpec {
        OptionSpec {
            flags: self.flags.deep_view(),
            argument: opt_text(self.argument),
            description: self.description@,
            dangerous: self.dangerous,
            sensitive: self.sensitive,
        }
    }
}

impl DeepView for CatalogSection {
    type V = SectionSpec;

    open spec fn deep_view(&self) -> SectionSpec {
        SectionSpec { name: self.name@, options: self.options.deep_view() }
    }
}

/// Whether two spaces in a row begin at position `i` of `s`.
pub open spec fn double_space_at(s: Seq<char>, i: int) -> bool {
    0 <= i && i + 1 < s.len() && s[i] == ' ' && s[i + 1] == ' '
}

/// The first position at or after `from` where two spaces begin, or -1.
pub open spec fn first_double_space(s: Seq<char>, from: int) -> int
    decreases s.len() - from,
{
    if from < 0 || from + 1 >= s.len() {
        -1
    } else if double_space_at(s, from) {
        from
    } else {
        first_double_space(s, from + 1)
    }
}

/// The signature of a help line: the text before its first double space.
pub open spec fn signature_text(line: Seq<char>) -> Seq<char> {
    let k = first_double_space(line, 0);
    if k < 0 {
        line
    } else {
        line.take(k)
    }
}

/// The description of a help line: the trimmed text from its first double space on.
pub open spec fn description_text(line: Seq<char>) -> Seq<char> {
    let k = first_double_space(line, 0);
    if k < 0 {
        Seq::empty()
    } else {
        trim(line.skip(k))
    }
}

/// Splits a help line into the option signature and the description, at
/// the first run of two spaces.
pub fn split_signature_description(line: &str) -> (r: (&str, &str))
    ensures
        r.0@ == signature_text(line@),
        r.1@ == description_text(line@),
{
    let v = chars_of(line);
    let n = v.len();
    let mut i: usize = 0;
    while i < n && i + 1 < n
        invariant
            v@ == line@,
            n == v@.len(),
            i <= n,
            first_double_space(v@, 0) == first_double_space(v@, i as int),
        decreases n - i,
    {
        if v[i] == ' ' && v[i + 1] == ' ' {
            let (a, b) = trim_bounds(&v, i, n);
            assert(v@.subrange(i as int, n as int) == v@.skip(i as int));
            return (line.substring_char(0, i), line.substring_char(a, b));
        }
        i += 1;
    }
    proof {
        reveal_strlit("");
    }
    assert(v@.take(v@.len() as int) == v@);
    (line, "")
}

/// The flags of a signature: the first word of each comma-separated part
/// that has one.
pub open spec fn signature_flags(parts: Seq<Seq<char>>) -> Seq<Seq<char>>
    decreases parts.len(),
{
    if parts.len() == 0 {
        Seq::empty()
    } else {
        let f = signature_flags(parts.drop_last());
        let w = words(parts.last());
        if w.len() > 0 {
            f.push(w[0])
        } else {
            f
        }
    }
}

/// The argument placeholder of a signature: the words after the flag in
/// the last comma-separated part that has any, joined with spaces.
pub open spec fn signature_argument(parts: Seq<Seq<char>>) -> Option<Seq<char>>
    decreases parts.len(),
{
    if parts.len() == 0 {
        None
    } else {
        let w = words(parts.last());
        let rest = join_with_space(w.skip(1));
        if w.len() > 0 && rest.len() > 0 {
            Some(rest)
        } else {
            signature_argument(parts.drop_last())
        }
    }
}

/// The flags and argument placeholder of an option signature such as
/// `-o, --output TEMPLATE`.
pub open spec fn signature(sig: Seq<char>) -> (Seq<Seq<char>>, Option<Seq<char>>) {
    let parts = split_on(sig, ',');
    (signature_flags(parts), signature_argument(parts))
}

proof fn lemma_ranges_widen(r: Seq<(usize, usize)>, lo: int, hi: int, lo2: int, hi2: int)
    requires
        ranges_within(r, lo, hi),
        lo2 <= lo,
        hi <= hi2,
    ensures
        ranges_within(r, lo2, hi2),
{
}

/// Parses an option signature into its flags and argument placeholder.
pub fn parse_signature(sig: &str) -> (r: (Vec<String>, Option<String>))
    ensures
        r.0.deep_view() == signature(sig@).0,
        opt_text(r.1) == signature(sig@).1,
{
    let v = chars_of(sig);
    let parts = split_ranges(&v, 0, v.len(), ',');
    assert(v@.subrange(0, v@.len() as int) == v@);
    let ghost p = ranges_text(v@, parts@);
    let mut flags: Vec<String> = Vec::new();
    let mut argument: Option<String> = None;
    let mut k: usize = 0;
    assert(p.take(0) =~= Seq::<Seq<char>>::empty());
    assert(flags.deep_view() =~= Seq::<Seq<char>>::empty());
    while k < parts.len()
        invariant
            v@ == sig@,
            p == ranges_text(v@, parts@),
            p == split_on(sig@, ','),
            ranges_within(parts@, 0, v@.len() as int),
            k <= parts@.len(),
            flags.deep_view() == signature_flags(p.take(k as int)),
            opt_text(argument) == signature_argument(p.take(k as int)),
        decreases parts@.len() - k,
    {
        let ghost before = flags.deep_view();
        let (a, b) = parts[k];
        let w = word_ranges(&v, a, b);
        proof {
            lemma_ranges_widen(w@, a as int, b as int, 0, v@.len() as int);
            assert(p.take(k + 1).drop_last() =~= p.take(k as int));
            assert(p.take(k + 1).last() == v@.subrange(a as int, b as int));
        }
        if w.len() > 0 {
            let (x, y) = w[0];
            flags.push(string_from_range(&v, x, y));
            assert(flags.deep_view() =~= before.push(ranges_text(v@, w@)[0]));
            let rest = join_ranges(&v, &w, 1);
            if !rest.as_str().is_empty() {
                argument = Some(rest);
            }
        }
        k += 1;
    }
    assert(p.take(parts@.len() as int) == p);
    (flags, argument)
}

/// Whether a comma-separated part of a signature holds more than white space.
pub open spec fn part_has_text() -> spec_fn(Seq<char>) -> bool {
    |p: Seq<char>| trim(p).len() > 0
}

/// Whether a part holds at least two words.
pub open spec fn part_has_argument() -> spec_fn(Seq<char>) -> bool {
    |p: Seq<char>| words(p).len() >= 2
}

/// The first word of a part.
pub open spec fn part_flag() -> spec_fn(Seq<char>) -> Seq<char> {
    |p: Seq<char>| words(p)[0]
}

proof fn lemma_flags_filtered(parts: Seq<Seq<char>>)
    ensures
        signature_flags(parts) == parts.filter(part_has_text()).map_values(part_flag()),
    decreases parts.len(),
{
    reveal(Seq::filter);
    if parts.len() > 0 {
        let front = parts.drop_last();
        let last = parts.last();
        lemma_flags_filtered(front);
        lemma_words_empty_iff_blank(last);
        lemma_trim_empty_iff_blank(last);
        let f = front.filter(part_has_text());
        if trim(last).len() > 0 {
            assert(parts.filter(part_has_text()) == f.push(last));
            assert(f.push(last).map_values(part_flag()) =~= f.map_values(part_flag()).push(
                words(last)[0],
            ));
        } else {
            assert(parts.filter(part_has_text()) == f);
        }
    }
}

proof fn lemma_argument_filtered(parts: Seq<Seq<char>>)
    ensures
        signature_argument(parts) == ({
            let long = parts.filter(part_has_argument());
            if long.len() == 0 {
                None
            } else {
                Some(join_with_space(words(long.last()).skip(1)))
            }
        }),
    decreases parts.len(),
{
    reveal(Seq::filter);
    if parts.len() > 0 {
        let front = parts.drop_last();
        let last = parts.last();
        lemma_argument_filtered(front);
        lemma_words_shape(last);
        let w = words(last);
        if w.len() >= 2 {
            let rest = w.skip(1);
            assert forall|i: int| 0 <= i < rest.len() implies (#[trigger] rest[i]).len() > 0 by {
                assert(rest[i] == w[i + 1]);
            }
            lemma_join_nonempty(rest);
        } else if w.len() == 1 {
            assert(w.skip(1).len() == 0);
        }
    }
}

proof fn lemma_flag_chars(parts: Seq<Seq<char>>)
    requires
        forall|i: int, j: int|
            0 <= i < parts.len() && 0 <= j < parts[i].len() ==> #[trigger] parts[i][j] != ',',
    ensures
        forall|i: int|
            0 <= i < signature_flags(parts).len() ==> (#[trigger] signature_flags(parts)[i]).len()
                > 0,
        forall|i: int, j: int|
            0 <= i < signature_flags(parts).len() && 0 <= j < signature_flags(parts)[i].len()
                ==> !is_space(#[trigger] signature_flags(parts)[i][j]) && signature_flags(
                parts,
            )[i][j] != ',',
    decreases parts.len(),
{
    if parts.len() > 0 {
        let front = parts.drop_last();
        let last = parts.last();
        assert forall|i: int, j: int| 0 <= i < front.len() && 0 <= j < front[i].len() implies #[trigger] front[i][j]
            != ',' by {
            assert(front[i] == parts[i]);
        }
        lemma_flag_chars(front);
        assert forall|k: int| 0 <= k < last.len() implies #[trigger] last[k] != ',' by {
            assert(last[k] == parts[parts.len() - 1][k]);
        }
        lemma_words_chars(last, ',');
        lemma_words_shape(last);
        let f = signature_flags(front);
        let r = signature_flags(parts);
        assert forall|i: int| 0 <= i < r.len() implies (#[trigger] r[i]).len() > 0 by {
            if i < f.len() {
                assert(r[i] == f[i]);
            }
        }
        assert forall|i: int, j: int| 0 <= i < r.len() && 0 <= j < r[i].len() implies !is_space(
            #[trigger] r[i][j],
        ) && r[i][j] != ',' by {
            if i < f.len() {
                assert(r[i] == f[i]);
            } else {
                assert(r[i] == words(last)[0]);
            }
        }
    }
}

/// What a signature yields, restated: its flags are the first words of the
/// comma-separated parts that hold more than white space, in order, each
/// non-empty and free of white space and commas; its argument placeholder
/// is the words after the first of the last part with two or more words,
/// joined by single spaces, and there is none when no part has two words.
pub proof fn law_signature_restated(sig: Seq<char>)
    ensures
        signature(sig).0 == split_on(sig, ',').filter(part_has_text()).map_values(part_flag()),
        forall|i: int| 0 <= i < signature(sig).0.len() ==> (#[trigger] signature(sig).0[i]).len() > 0,
        forall|i: int, j: int|
            0 <= i < signature(sig).0.len() && 0 <= j < signature(sig).0[i].len() ==> !is_space(
                #[trigger] signature(sig).0[i][j],
            ) && signature(sig).0[i][j] != ',',
        signature(sig).1 == ({
            let long = split_on(sig, ',').filter(part_has_argument());
            if long.len() == 0 {
                None
            } else {
                Some(join_with_space(words(long.last()).skip(1)))
            }
        }),
{
    let parts = split_on(sig, ',');
    lemma_flags_filtered(parts);
    lemma_argument_filtered(parts);
    lemma_split_on_no_separator(sig, ',');
    lemma_flag_chars(parts);
}

/// Whether any of the flags is dangerous.
pub open spec fn any_dangerous(flags: Seq<Seq<char>>) -> bool {
    exists|i: int| 0 <= i < flags.len() && is_dangerous(#[trigger] flags[i])
}

/// Whether any of the flags is sensitive.
pub open spec fn any_sensitive(flags: Seq<Seq<char>>) -> bool {
    exists|i: int| 0 <= i < flags.len() && is_sensitive(#[trigger] flags[i])
}

/// The option that a trimmed option line of the help text describes.
pub open spec fn catalog_option(line: Seq<char>) -> OptionSpec {
    let sig = signature(signature_text(line));
    OptionSpec {
        flags: sig.0,
        argument: sig.1,
        description: description_text(line),
        dangerous: any_dangerous(sig.0),
        sensitive: any_sensitive(sig.0),
    }
}

fn option_from_line(line: &str) -> (o: CatalogOption)
    ensures
        o.deep_view() == catalog_option(line@),
{
    let (signature, description) = split_signature_description(line);
    let (flags, argument) = parse_signature(signature);
    let mut dangerous = false;
    let mut sensitive = false;
    let mut i: usize = 0;
    while i < flags.len()
        invariant
            i <= flags@.len(),
            dangerous == exists|j: int| 0 <= j < i && is_dangerous(#[trigger] flags.deep_view()[j]),
            sensitive == exists|j: int| 0 <= j < i && is_sensitive(#[trigger] flags.deep_view()[j]),
        decreases flags@.len() - i,
    {
        assert(flags.deep_view()[i as int] == flags@[i as int]@);
        if is_dangerous_flag(flags[i].as_str()) {
            dangerous = true;
        }
        if is_sensitive_flag(flags[i].as_str()) {
            sensitive = true;
        }
        i += 1;
    }
    CatalogOption { flags, argument, description: description.to_owned(), dangerous, sensitive }
}


/// The options of an optional `CatalogOption`.
pub open spec fn opt_option(o: Option<CatalogOption>) -> Option<OptionSpec> {
    match o {
        Some(o) => Some(o.deep_view()),
        None => None,
    }
}

/// The position of the first section named `name`, or -1.
pub open spec fn section_index(sections: Seq<SectionSpec>, name: Seq<char>) -> int
    decreases sections.len(),
{
    if sections.len() == 0 {
        -1
    } else {
        let i = section_index(sections.drop_last(), name);
        if i >= 0 {
            i
        } else if sections.last().name == name {
            sections.len() - 1
        } else {
            -1
        }
    }
}

/// `sections` with `o` added to the section named `name`, which is
/// appended where there is none yet.
pub open spec fn add_option(sections: Seq<SectionSpec>, name: Seq<char>, o: OptionSpec) -> Seq<
    SectionSpec,
> {
    let i = section_index(sections, name);
    if i >= 0 {
        sections.update(
            i,
            SectionSpec { name: sections[i].name, options: sections[i].options.push(o) },
        )
    } else {
        sections.push(SectionSpec { name, options: seq![o] })
    }
}

proof fn lemma_section_index(sections: Seq<SectionSpec>, name: Seq<char>)
    ensures
        section_index(sections, name) == -1 <==> forall|j: int|
            0 <= j < sections.len() ==> (#[trigger] sections[j]).name != name,
        section_index(sections, name) != -1 ==> {
            let i = section_index(sections, name);
            &&& 0 <= i < sections.len()
            &&& sections[i].name == name
            &&& forall|j: int| 0 <= j < i ==> (#[trigger] sections[j]).name != name
        },
    decreases sections.len(),
{
    if sections.len() > 0 {
        let n = sections.len() - 1;
        let front = sections.drop_last();
        lemma_section_index(front, name);
        assert forall|j: int| 0 <= j < n implies (#[trigger] front[j]) == sections[j] by {}
        let i = section_index(front, name);
        if i >= 0 {
            assert(front[i] == sections[i]);
            assert forall|j: int| 0 <= j < i implies (#[trigger] sections[j]).name != name by {
                assert(front[j] == sections[j]);
            }
        } else if sections[n].name == name {
            assert(section_index(sections, name) == n);
            assert forall|j: int| 0 <= j < n implies (#[trigger] sections[j]).name != name by {
                assert(front[j] == sections[j]);
            }
        } else {
            assert(section_index(sections, name) == -1);
            assert forall|j: int| 0 <= j < sections.len() implies (#[trigger] sections[j]).name
                != name by {
                if j < n {
                    assert(front[j] == sections[j]);
                }
            }
        }
    }
}

/// Adds a pending option to the section named `name`.
fn flush_option(
    sections: &mut Vec<CatalogSection>,
    name: &String,
    option: &mut Option<CatalogOption>,
)
    ensures
        *final(option) is None,
        final(sections).deep_view() == match opt_option(*old(option)) {
            Some(o) => add_option(old(sections).deep_view(), name@, o),
            None => old(sections).deep_view(),
        },
{
    let pending = option.take();
    match pending {
        None => {},
        Some(o) => {
            let ghost before = sections.deep_view();
            let ghost ov = o.deep_view();
            let mut i: usize = 0;
            while i < sections.len()
                invariant
                    *option is None,
                    before == old(sections).deep_view(),
                    opt_option(*old(option)) == Some(ov),
                    ov == o.deep_view(),
                    sections.deep_view() == before,
                    i <= sections@.len(),
                    forall|j: int| 0 <= j < i ==> (#[trigger] before[j]).name != name@,
                decreases sections@.len() - i,
            {
                assert(before[i as int].name == sections@[i as int].name@);
                if str_equals(sections[i].name.as_str(), name.as_str()) {
                    proof {
                        lemma_section_index(before, name@);
                    }
                    let ghost old_options = sections@[i as int].options.deep_view();
                    let ghost old_vec = sections@[i as int].options@;
                    sections[i].options.push(o);
                    assert(sections@[i as int].options@ == old_vec.push(o));
                    assert forall|j: int|
                        0 <= j < old_vec.len() + 1 implies sections@[i as int].options.deep_view()[j]
                        == old_options.push(ov)[j] by {
                        let nv = sections@[i as int].options@;
                        assert(sections@[i as int].options.deep_view()[j] == nv[j].deep_view());
                        if j < old_vec.len() {
                            assert(nv[j] == old_vec[j]);
                            assert(old_options[j] == old_vec[j].deep_view());
                        } else {
                            assert(nv[j] == o);
                        }
                    }
                    assert(sections@[i as int].options.deep_view() =~= old_options.push(ov));
                    assert(sections.deep_view() =~= before.update(
                        i as int,
                        SectionSpec { name: before[i as int].name, options: old_options.push(ov) },
                    ));
                    return ;
                }
                i += 1;
            }
            proof {
                lemma_section_index(before, name@);
            }
            let mut options: Vec<CatalogOption> = Vec::new();
            options.push(o);
            assert(options.deep_view() =~= seq![ov]);
            sections.push(CatalogSection { name: name.clone(), options });
            assert(sections.deep_view() =~= before.push(SectionSpec { name: name@, options: seq![ov] }));
        },
    }
}


/// Where parsing the help text stands: the sections so far, the current
/// section's name and the option whose description is still being read.
pub struct HelpState {
    pub sections: Seq<SectionSpec>,
    pub section: Seq<char>,
    pub option: Option<OptionSpec>,
}

/// The state with its pending option filed under the current section.
pub open spec fn flush(st: HelpState) -> HelpState {
    match st.option {
        Some(o) => HelpState {
            sections: add_option(st.sections, st.section, o),
            section: st.section,
            option: None,
        },
        None => st,
    }
}

/// Whether a line begins with four spaces.
pub open spec fn is_indented(line: Seq<char>) -> bool {
    line.len() >= 4 && line[0] == ' ' && line[1] == ' ' && line[2] == ' ' && line[3] == ' '
}

/// Whether a line begins with four spaces and a dash: an option's line.
pub open spec fn is_option_line(line: Seq<char>) -> bool {
    is_indented(line) && line.len() >= 5 && line[4] == '-'
}

/// Whether a line whose trimmed text is `t` names a section: it ends with a
/// colon, does not start with a dash and is not indented by four spaces.
pub open spec fn is_section_heading(line: Seq<char>, t: Seq<char>) -> bool {
    t.len() > 0 && t.last() == ':' && t[0] != '-' && !is_indented(line)
}

/// A description continued by the text `t` of a further line.
pub open spec fn continue_description(description: Seq<char>, t: Seq<char>) -> Seq<char> {
    if description.len() == 0 {
        t
    } else {
        description.push(' ') + t
    }
}

/// The state after one line of the help text.
pub open spec fn help_step(st: HelpState, line: Seq<char>) -> HelpState {
    let t = trim(line);
    if t.len() == 0 {
        flush(st)
    } else if is_section_heading(line, t) {
        HelpState {
            sections: flush(st).sections,
            section: trim_end_char(t, ':'),
            option: None,
        }
    } else if is_option_line(line) {
        HelpState {
            sections: flush(st).sections,
            section: st.section,
            option: Some(catalog_option(t)),
        }
    } else {
        match st.option {
            Some(o) => HelpState {
                sections: st.sections,
                section: st.section,
                option: Some(
                    OptionSpec {
                        flags: o.flags,
                        argument: o.argument,
                        description: continue_description(o.description, t),
                        dangerous: o.dangerous,
                        sensitive: o.sensitive,
                    },
                ),
            },
            None => st,
        }
    }
}

/// The state after the given lines, starting in the section "General".
pub open spec fn help_fold(lines: Seq<Seq<char>>) -> HelpState
    decreases lines.len(),
{
    if lines.len() == 0 {
        HelpState { sections: Seq::empty(), section: "General"@, option: None }
    } else {
        help_step(help_fold(lines.drop_last()), lines.last())
    }
}

/// The catalog that a help text describes.
pub open spec fn catalog(help: Seq<char>) -> Seq<SectionSpec> {
    flush(help_fold(lines(help))).sections
}

/// The state that the parser's variables hold.
pub open spec fn state_of(
    sections: Vec<CatalogSection>,
    section: String,
    option: Option<CatalogOption>,
) -> HelpState {
    HelpState { sections: sections.deep_view(), section: section@, option: opt_option(option) }
}

/// Parses the downloader's `--help` text into sections of options.
pub fn parse_help(help: &str) -> (r: Vec<CatalogSection>)
    ensures
        r.deep_view() == catalog(help@),
{
    let v = chars_of(help);
    let ls = line_ranges(&v);
    let ghost lines_text = ranges_text(v@, ls@);
    let mut sections: Vec<CatalogSection> = Vec::new();
    let mut current_section = String::from_str("General");
    let mut current_option: Option<CatalogOption> = None;
    let mut k: usize = 0;
    assert(lines_text.take(0) =~= Seq::<Seq<char>>::empty());
    assert(sections.deep_view() =~= Seq::<SectionSpec>::empty());
    while k < ls.len()
        invariant
            v@ == help@,
            lines_text == ranges_text(v@, ls@),
            lines_text == lines(help@),
            ranges_within(ls@, 0, v@.len() as int),
            k <= ls@.len(),
            state_of(sections, current_section, current_option) == help_fold(
                lines_text.take(k as int),
            ),
        decreases ls@.len() - k,
    {
        let ghost st = state_of(sections, current_section, current_option);
        let (a, b) = ls[k];
        let ghost line = v@.subrange(a as int, b as int);
        assert(lines_text.take(k + 1).drop_last() =~= lines_text.take(k as int));
        assert(lines_text.take(k + 1).last() == line);
        let (ta, tb) = trim_bounds(&v, a, b);
        let ghost t = trim(line);
        assert(t == v@.subrange(ta as int, tb as int));
        let indented = b - a >= 4 && v[a] == ' ' && v[a + 1] == ' ' && v[a + 2] == ' ' && v[a + 3]
            == ' ';
        assert(indented == is_indented(line));
        if ta == tb {
            flush_option(&mut sections, &current_section, &mut current_option);
        } else if v[tb - 1] == ':' && v[ta] != '-' && !indented {
            assert(t.last() == v@[tb - 1] && t[0] == v@[ta as int]);
            flush_option(&mut sections, &current_section, &mut current_option);
            let e = trim_end_char_bound(&v, ta, tb, ':');
            current_section = string_from_range(&v, ta, e);
        } else if indented && b - a >= 5 && v[a + 4] == '-' {
            assert(t.last() == v@[tb - 1] && t[0] == v@[ta as int]);
            flush_option(&mut sections, &current_section, &mut current_option);
            let text = string_from_range(&v, ta, tb);
            current_option = Some(option_from_line(text.as_str()));
        } else {
            assert(t.last() == v@[tb - 1] && t[0] == v@[ta as int]);
            assert(!is_option_line(line));
            let pending = current_option.take();
            match pending {
                Some(mut o) => {
                    let ghost before = o.description@;
                    if !o.description.as_str().is_empty() {
                        push_char(&mut o.description, ' ');
                    }
                    push_range(&mut o.description, &v, ta, tb);
                    assert(o.description@ =~= continue_description(before, t));
                    current_option = Some(o);
                },
                None => {},
            }
        }
        k += 1;
    }
    assert(lines_text.take(ls@.len() as int) == lines_text);
    flush_option(&mut sections, &current_section, &mut current_option);
    sections
}

/// The end of `v[lo..hi]` once every trailing `c` is removed.
fn trim_end_char_bound(v: &Vec<char>, lo: usize, hi: usize, c: char) -> (e: usize)
    requires
        lo <= hi <= v@.len(),
    ensures
        lo <= e <= hi,
        v@.subrange(lo as int, e as int) == trim_end_char(v@.subrange(lo as int, hi as int), c),
{
    let mut e = hi;
    while e > lo && v[e - 1] == c
        invariant
            lo <= e <= hi <= v@.len(),
            trim_end_char(v@.subrange(lo as int, hi as int), c) == trim_end_char(
                v@.subrange(lo as int, e as int),
                c,
            ),
        decreases e - lo,
    {
        assert(v@.subrange(lo as int, e as int).drop_last() == v@.subrange(lo as int, e - 1));
        e -= 1;
    }
    e
}


/// An option is marked dangerous (sensitive) exactly when one of its flags is.
pub open spec fn marks_consistent(o: OptionSpec) -> bool {
    o.dangerous == any_dangerous(o.flags) && o.sensitive == any_sensitive(o.flags)
}

/// An option has a flag, and its first flag begins with a dash.
pub open spec fn has_dash_flag(o: OptionSpec) -> bool {
    o.flags.len() > 0 && o.flags[0].len() > 0 && o.flags[0][0] == '-'
}

/// Section names are distinct, no section is empty, and every option has a
/// dash flag and marks that agree with its flags.
pub open spec fn well_formed_catalog(sections: Seq<SectionSpec>) -> bool {
    &&& forall|i: int, j: int|
        0 <= i < j < sections.len() ==> (#[trigger] sections[i]).name != (#[trigger] sections[j]).name
    &&& forall|i: int| 0 <= i < sections.len() ==> (#[trigger] sections[i]).options.len() > 0
    &&& forall|i: int, k: int|
        0 <= i < sections.len() && 0 <= k < sections[i].options.len() ==> marks_consistent(
            #[trigger] sections[i].options[k],
        ) && has_dash_flag(sections[i].options[k])
}

/// A parser state whose sections are well formed and whose pending option,
/// if any, has consistent marks.
pub open spec fn well_formed_state(st: HelpState) -> bool {
    &&& well_formed_catalog(st.sections)
    &&& st.option matches Some(o) ==> marks_consistent(o) && has_dash_flag(o)
}

proof fn lemma_add_option_well_formed(sections: Seq<SectionSpec>, name: Seq<char>, o: OptionSpec)
    requires
        well_formed_catalog(sections),
        marks_consistent(o),
        has_dash_flag(o),
    ensures
        well_formed_catalog(add_option(sections, name, o)),
{
    lemma_section_index(sections, name);
    let i = section_index(sections, name);
    let r = add_option(sections, name, o);
    if i >= 0 {
        assert forall|a: int, b: int| 0 <= a < b < r.len() implies (#[trigger] r[a]).name != (
        #[trigger] r[b]).name by {
            assert(r[a].name == sections[a].name);
            assert(r[b].name == sections[b].name);
        }
        assert forall|a: int| 0 <= a < r.len() implies (#[trigger] r[a]).options.len() > 0 by {
            if a != i {
                assert(r[a] == sections[a]);
            }
        }
        assert forall|a: int, k: int|
            0 <= a < r.len() && 0 <= k < r[a].options.len() implies marks_consistent(
            #[trigger] r[a].options[k],
        ) && has_dash_flag(r[a].options[k]) by {
            if a != i {
                assert(r[a] == sections[a]);
            } else if k < sections[a].options.len() {
                assert(r[a].options[k] == sections[a].options[k]);
            }
        }
    } else {
        assert forall|a: int, b: int| 0 <= a < b < r.len() implies (#[trigger] r[a]).name != (
        #[trigger] r[b]).name by {
            if b < sections.len() {
                assert(r[a] == sections[a]);
                assert(r[b] == sections[b]);
            } else {
                assert(r[a] == sections[a]);
            }
        }
        assert forall|a: int| 0 <= a < r.len() implies (#[trigger] r[a]).options.len() > 0 by {
            if a < sections.len() {
                assert(r[a] == sections[a]);
            }
        }
        assert forall|a: int, k: int|
            0 <= a < r.len() && 0 <= k < r[a].options.len() implies marks_consistent(
            #[trigger] r[a].options[k],
        ) && has_dash_flag(r[a].options[k]) by {
            if a < sections.len() {
                assert(r[a] == sections[a]);
            }
        }
    }
}

proof fn lemma_first_double_space_bound(s: Seq<char>, from: int)
    ensures
        first_double_space(s, from) == -1 || from <= first_double_space(s, from) < s.len(),
    decreases s.len() - from,
{
    if !(from < 0 || from + 1 >= s.len()) && !double_space_at(s, from) {
        lemma_first_double_space_bound(s, from + 1);
    }
}

proof fn lemma_signature_flags_first(parts: Seq<Seq<char>>)
    requires
        parts.len() > 0,
        words(parts[0]).len() > 0,
    ensures
        signature_flags(parts).len() > 0,
        signature_flags(parts)[0] == words(parts[0])[0],
    decreases parts.len(),
{
    if parts.len() == 1 {
        assert(parts.drop_last() =~= Seq::<Seq<char>>::empty());
    } else {
        lemma_signature_flags_first(parts.drop_last());
    }
}

/// The option of a line that begins with four spaces and a dash has a dash flag.
proof fn lemma_option_line_has_dash_flag(line: Seq<char>)
    requires
        is_option_line(line),
    ensures
        trim(line).len() > 0,
        has_dash_flag(catalog_option(trim(line))),
{
    assert(is_space(' '));
    assert(!is_space('-'));
    assert(!is_space(line[4]));
    lemma_trim_start_skip(line, 4);
    let rest = line.skip(4);
    assert(rest[0] == '-');
    lemma_trim_end_keeps_first(rest);
    let t = trim(line);
    assert(t[0] == '-');
    lemma_first_double_space_bound(t, 1);
    if t.len() > 1 {
        assert(!double_space_at(t, 0));
        assert(first_double_space(t, 0) == first_double_space(t, 1));
    }
    let sig = signature_text(t);
    assert(sig.len() > 0 && sig[0] == '-');
    lemma_split_on_first(sig, ',');
    let parts = split_on(sig, ',');
    lemma_words_first(parts[0]);
    lemma_signature_flags_first(parts);
}

proof fn lemma_flush_well_formed(st: HelpState)
    requires
        well_formed_state(st),
    ensures
        well_formed_state(flush(st)),
{
    if let Some(o) = st.option {
        lemma_add_option_well_formed(st.sections, st.section, o);
    }
}

proof fn lemma_fold_well_formed(lines: Seq<Seq<char>>)
    ensures
        well_formed_state(help_fold(lines)),
    decreases lines.len(),
{
    if lines.len() > 0 {
        let st = help_fold(lines.drop_last());
        lemma_fold_well_formed(lines.drop_last());
        lemma_flush_well_formed(st);
        let line = lines.last();
        if trim(line).len() != 0 && !is_section_heading(line, trim(line)) && is_option_line(line) {
            lemma_option_line_has_dash_flag(line);
        }
    }
}

/// Every catalog parsed from help text is well formed: its section names
/// are distinct, no section is empty, each option has a first flag that
/// begins with a dash, and each option is marked dangerous (sensitive)
/// exactly when one of its flags is.
pub proof fn law_catalog_well_formed(help: Seq<char>)
    ensures
        well_formed_catalog(catalog(help)),
{
    lemma_fold_well_formed(lines(help));
    lemma_flush_well_formed(help_fold(lines(help)));
}


/// A section's name and the flags of each of its options, in order.
pub type SectionFlags = (Seq<char>, Seq<Seq<Seq<char>>>);

/// The name and option flags of each section.
pub open spec fn sections_flags(sections: Seq<SectionSpec>) -> Seq<SectionFlags> {
    sections.map_values(
        |sec: SectionSpec| (sec.name, sec.options.map_values(|o: OptionSpec| o.flags)),
    )
}

/// For each option line, in order: the section current at that line and
/// the flags that the line gives.
pub open spec fn option_entries(lines: Seq<Seq<char>>) -> Seq<(Seq<char>, Seq<Seq<char>>)>
    decreases lines.len(),
{
    if lines.len() == 0 {
        Seq::empty()
    } else {
        let e = option_entries(lines.drop_last());
        let line = lines.last();
        if is_option_line(line) {
            e.push((help_fold(lines.drop_last()).section, catalog_option(trim(line)).flags))
        } else {
            e
        }
    }
}

/// The position of the first group named `name`, or -1.
pub open spec fn group_index(groups: Seq<SectionFlags>, name: Seq<char>) -> int
    decreases groups.len(),
{
    if groups.len() == 0 {
        -1
    } else {
        let i = group_index(groups.drop_last(), name);
        if i >= 0 {
            i
        } else if groups.last().0 == name {
            groups.len() - 1
        } else {
            -1
        }
    }
}

/// `groups` with `flags` added to the group named `name`, appended as a new
/// group where there is none yet.
pub open spec fn add_entry(groups: Seq<SectionFlags>, name: Seq<char>, flags: Seq<Seq<char>>) -> Seq<
    SectionFlags,
> {
    let i = group_index(groups, name);
    if i >= 0 {
        groups.update(i, (groups[i].0, groups[i].1.push(flags)))
    } else {
        groups.push((name, seq![flags]))
    }
}

/// Entries gathered by section name: groups in the order of their first
/// entry, each group's entries in their order.
pub open spec fn group_entries(entries: Seq<(Seq<char>, Seq<Seq<char>>)>) -> Seq<SectionFlags>
    decreases entries.len(),
{
    if entries.len() == 0 {
        Seq::empty()
    } else {
        add_entry(group_entries(entries.drop_last()), entries.last().0, entries.last().1)
    }
}

proof fn lemma_group_index(sections: Seq<SectionSpec>, name: Seq<char>)
    ensures
        group_index(sections_flags(sections), name) == section_index(sections, name),
    decreases sections.len(),
{
    if sections.len() > 0 {
        lemma_group_index(sections.drop_last(), name);
        assert(sections_flags(sections).drop_last() =~= sections_flags(sections.drop_last()));
    }
}

proof fn lemma_add_option_flags(sections: Seq<SectionSpec>, name: Seq<char>, o: OptionSpec)
    ensures
        sections_flags(add_option(sections, name, o)) == add_entry(
            sections_flags(sections),
            name,
            o.flags,
        ),
{
    lemma_group_index(sections, name);
    let i = section_index(sections, name);
    lemma_section_index(sections, name);
    let g = sections_flags(sections);
    if i >= 0 {
        let x = SectionSpec { name: sections[i].name, options: sections[i].options.push(o) };
        assert(x.options.map_values(|p: OptionSpec| p.flags) =~= sections[i].options.map_values(
            |p: OptionSpec| p.flags,
        ).push(o.flags));
        assert(sections_flags(add_option(sections, name, o)) =~= g.update(
            i,
            (g[i].0, g[i].1.push(o.flags)),
        ));
    } else {
        let x = SectionSpec { name, options: seq![o] };
        assert(x.options.map_values(|p: OptionSpec| p.flags) =~= seq![o.flags]);
        assert(sections_flags(add_option(sections, name, o)) =~= g.push((name, seq![o.flags])));
    }
}

proof fn lemma_fold_flags(lines: Seq<Seq<char>>)
    ensures
        sections_flags(flush(help_fold(lines)).sections) == group_entries(option_entries(lines)),
    decreases lines.len(),
{
    if lines.len() > 0 {
        let front = lines.drop_last();
        let line = lines.last();
        let st = help_fold(front);
        lemma_fold_flags(front);
        let t = trim(line);
        let e = option_entries(front);
        let next = help_fold(lines);
        assert(lines.drop_last() == front);
        assert(next == help_step(st, line));
        if is_option_line(line) {
            lemma_option_line_has_dash_flag(line);
            let o = catalog_option(t);
            assert(!is_section_heading(line, t));
            assert(next == HelpState {
                sections: flush(st).sections,
                section: st.section,
                option: Some(o),
            });
            let entries = e.push((st.section, o.flags));
            assert(option_entries(lines) == entries);
            assert(entries.drop_last() =~= e);
            assert(group_entries(entries) == add_entry(group_entries(e), st.section, o.flags));
            lemma_add_option_flags(flush(st).sections, st.section, o);
        } else {
            assert(option_entries(lines) == e);
            if t.len() == 0 {
                assert(next == flush(st));
                assert(flush(next) == next);
            } else if is_section_heading(line, t) {
                assert(flush(next).sections == flush(st).sections);
            } else if let Some(o) = st.option {
                let o2 = next.option->0;
                assert(o2.flags == o.flags);
                lemma_add_option_flags(st.sections, st.section, o);
                lemma_add_option_flags(st.sections, st.section, o2);
            } else {
                assert(next == st);
            }
        }
    }
}

/// The number of options in all sections.
pub open spec fn total_options(sections: Seq<SectionSpec>) -> nat
    decreases sections.len(),
{
    if sections.len() == 0 {
        0
    } else {
        total_options(sections.drop_last()) + sections.last().options.len()
    }
}

/// The number of entries in all groups.
pub open spec fn total_entries(groups: Seq<SectionFlags>) -> nat
    decreases groups.len(),
{
    if groups.len() == 0 {
        0
    } else {
        total_entries(groups.drop_last()) + groups.last().1.len()
    }
}

proof fn lemma_total_update(groups: Seq<SectionFlags>, i: int, v: SectionFlags)
    requires
        0 <= i < groups.len(),
    ensures
        total_entries(groups.update(i, v)) == total_entries(groups) - groups[i].1.len() + v.1.len(),
    decreases groups.len(),
{
    let u = groups.update(i, v);
    if i == groups.len() - 1 {
        assert(u.drop_last() =~= groups.drop_last());
    } else {
        lemma_total_update(groups.drop_last(), i, v);
        assert(u.drop_last() =~= groups.drop_last().update(i, v));
    }
}

proof fn lemma_group_total(entries: Seq<(Seq<char>, Seq<Seq<char>>)>)
    ensures
        total_entries(group_entries(entries)) == entries.len(),
    decreases entries.len(),
{
    if entries.len() > 0 {
        let front = entries.drop_last();
        lemma_group_total(front);
        let g = group_entries(front);
        let (name, flags) = entries.last();
        let i = group_index(g, name);
        lemma_group_index_bound(g, name);
        if i >= 0 {
            lemma_total_update(g, i, (g[i].0, g[i].1.push(flags)));
        } else {
            assert(g.push((name, seq![flags])).drop_last() == g);
        }
    }
}

proof fn lemma_group_index_bound(groups: Seq<SectionFlags>, name: Seq<char>)
    ensures
        -1 <= group_index(groups, name) < groups.len(),
    decreases groups.len(),
{
    if groups.len() > 0 {
        lemma_group_index_bound(groups.drop_last(), name);
    }
}

proof fn lemma_total_options(sections: Seq<SectionSpec>)
    ensures
        total_options(sections) == total_entries(sections_flags(sections)),
    decreases sections.len(),
{
    if sections.len() > 0 {
        lemma_total_options(sections.drop_last());
        assert(sections_flags(sections).drop_last() =~= sections_flags(sections.drop_last()));
    }
}

proof fn lemma_entries_count(lines: Seq<Seq<char>>)
    ensures
        option_entries(lines).len() == lines.filter(|l: Seq<char>| is_option_line(l)).len(),
    decreases lines.len(),
{
    reveal(Seq::filter);
    if lines.len() > 0 {
        lemma_entries_count(lines.drop_last());
    }
}

/// Each option line of the help text gives exactly one option, in order:
/// gathered by the section current at its line, the option lines' flags
/// are the catalog's sections with their options' flags, sections in the
/// order of their first option and each section's options in line order.
/// So the catalog holds as many options as the help text has option lines.
pub proof fn law_one_option_per_option_line(help: Seq<char>)
    ensures
        sections_flags(catalog(help)) == group_entries(option_entries(lines(help))),
        total_options(catalog(help)) == lines(help).filter(|l: Seq<char>| is_option_line(l)).len(),
{
    lemma_fold_flags(lines(help));
    lemma_group_total(option_entries(lines(help)));
    lemma_total_options(catalog(help));
    lemma_entries_count(lines(help));
}


proof fn lemma_two_lines(first: Seq<char>, second: Seq<char>)
    requires
        forall|i: int| 0 <= i < first.len() ==> #[trigger] first[i] != '\n',
        forall|i: int| 0 <= i < second.len() ==> #[trigger] second[i] != '\n',
        first.len() > 0 && first.last() != '\r',
        second.len() > 0,
    ensures
        lines(first + seq!['\n'] + second) == seq![first, second],
{
    lemma_split_on_without_separator(first, '\n');
    lemma_split_on_append(first, '\n', second);
    let p = split_on(first + seq!['\n'] + second, '\n');
    assert(p == seq![first, second]);
    assert(p.take(1).map_values(|l: Seq<char>| strip_carriage_return(l)) =~= seq![first]);
}

/// A line that continues an option's description is appended to it: after
/// an option line and a further line with trimmed text `t` (neither an
/// option line nor a heading), the option's description is the option
/// line's own description, then a space if that is non-empty, then `t`.
/// In particular an option line without a description, whose signature
/// fills the line, takes its description from the next line.
pub proof fn law_continuation_extends_description(option_line: Seq<char>, next: Seq<char>)
    requires
        is_option_line(option_line),
        option_line.last() != '\r',
        forall|i: int| 0 <= i < option_line.len() ==> #[trigger] option_line[i] != '\n',
        forall|i: int| 0 <= i < next.len() ==> #[trigger] next[i] != '\n',
        trim(next).len() > 0,
        !is_option_line(next),
        !is_section_heading(next, trim(next)),
    ensures
        ({
            let d = description_text(trim(option_line));
            let t = trim(next);
            let sections = catalog(option_line + seq!['\n'] + next);
            &&& sections.len() == 1
            &&& sections[0].name == "General"@
            &&& sections[0].options.len() == 1
            &&& sections[0].options[0].flags == signature(signature_text(trim(option_line))).0
            &&& sections[0].options[0].description == if d.len() == 0 {
                t
            } else {
                d + seq![' '] + t
            }
        }),
{
    lemma_trim_empty_iff_blank(next);
    assert(next.len() > 0);
    lemma_two_lines(option_line, next);
    lemma_option_line_has_dash_flag(option_line);
    let ls = seq![option_line, next];
    assert(ls.drop_last() =~= seq![option_line]);
    assert(seq![option_line].drop_last() =~= Seq::<Seq<char>>::empty());
    let init = help_fold(Seq::<Seq<char>>::empty());
    let t0 = trim(option_line);
    assert(!is_section_heading(option_line, t0));
    let first = help_fold(seq![option_line]);
    assert(first == help_step(init, option_line));
    assert(first.option == Some(catalog_option(t0)));
    assert(first.sections == Seq::<SectionSpec>::empty());
    let o = catalog_option(t0);
    let after = help_fold(ls);
    assert(after == help_step(first, next));
    let o2 = after.option->0;
    assert(o2.description == continue_description(o.description, trim(next)));
    assert(section_index(Seq::<SectionSpec>::empty(), "General"@) == -1);
}

} // verus!
