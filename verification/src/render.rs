//! Rendering helpers: decimal formatting, display widths, and the
//! coloured version diff shown when a package is updated.
//!
//! Terminal styling is expressed as the standard escape sequences,
//! produced as plain strings; writing them to a terminal is the caller's
//! business. The version diff splits both version strings into
//! alphanumeric sections separated by delimiter characters, and styles
//! each section of the new string by whether the corresponding section
//! of the old string matches.

use vstd::prelude::*;

use vstd::string::StrSliceExecFns;
use vstd::string::StringExecFns;

verus! {

/// Whether a character counts as alphanumeric when splitting a version
/// string into sections. A function of the character alone.
pub uninterp spec fn is_alphanumeric_char(c: char) -> bool;

/// Relies on char::is_alphanumeric: true exactly for characters in one
/// of Unicode's letter or number categories; on the ASCII range that is
/// exactly the letters and digits.
#[verifier::external_body]
fn char_is_alphanumeric(c: char) -> (r: bool)
    ensures
        r == is_alphanumeric_char(c),
        (c as u32) < 128 ==> (r == (('a' as u32 <= c as u32 && c as u32 <= 'z' as u32) || (
        'A' as u32 <= c as u32 && c as u32 <= 'Z' as u32) || ('0' as u32 <= c as u32 && c as u32
            <= '9' as u32))),
{
    c.is_alphanumeric()
}

/// Relies on String::push: appends exactly the one character.
#[verifier::external_body]
fn push_char(s: &mut String, c: char)
    ensures
        final(s)@ == old(s)@.push(c),
{
    s.push(c)
}

/// The decimal digits of `n`, most significant first.
pub open spec fn spec_digits(n: nat) -> Seq<char>
    decreases n,
{
    if n < 10 {
        seq![spec_digit_char(n)]
    } else {
        spec_digits(n / 10).push(spec_digit_char(n % 10))
    }
}

/// The character of one decimal digit.
pub open spec fn spec_digit_char(d: nat) -> char {
    if d == 0 {
        '0'
    } else if d == 1 {
        '1'
    } else if d == 2 {
        '2'
    } else if d == 3 {
        '3'
    } else if d == 4 {
        '4'
    } else if d == 5 {
        '5'
    } else if d == 6 {
        '6'
    } else if d == 7 {
        '7'
    } else if d == 8 {
        '8'
    } else {
        '9'
    }
}

/// One decimal digit, executably.
fn digit_char(d: u64) -> (r: char)
    requires
        d < 10,
    ensures
        r == spec_digit_char(d as nat),
{
    if d == 0 {
        '0'
    } else if d == 1 {
        '1'
    } else if d == 2 {
        '2'
    } else if d == 3 {
        '3'
    } else if d == 4 {
        '4'
    } else if d == 5 {
        '5'
    } else if d == 6 {
        '6'
    } else if d == 7 {
        '7'
    } else if d == 8 {
        '8'
    } else {
        '9'
    }
}

/// Renders `n` in decimal.
pub fn u64_to_string(n: u64) -> (r: String)
    ensures
        r@ == spec_digits(n as nat),
{
    let mut rev: Vec<char> = Vec::new();
    let mut m: u64 = n;
    proof {
        if n > 0 {
            assert(rev@.reverse() =~= Seq::<char>::empty());
            assert(spec_digits(n as nat) + rev@.reverse() =~= spec_digits(n as nat));
        }
    }
    while m > 0
        invariant
            n == 0 ==> m == 0 && rev@.len() == 0,
            m > 0 ==> spec_digits(n as nat) == spec_digits(m as nat) + rev@.reverse(),
            m == 0 ==> ((n == 0 && rev@.len() == 0) || (n > 0 && spec_digits(n as nat)
                == rev@.reverse())),
        decreases m,
    {
        let d = m % 10;
        let next = m / 10;
        let ghost mv = m as nat;
        let ghost rv = rev@;
        rev.push(digit_char(d));
        proof {
            assert(rev@.reverse() =~= seq![spec_digit_char(mv % 10)] + rv.reverse());
            if mv >= 10 {
                assert(spec_digits(mv) == spec_digits(mv / 10).push(spec_digit_char(mv % 10)));
                assert(spec_digits(mv / 10).push(spec_digit_char(mv % 10)) + rv.reverse()
                    =~= spec_digits(mv / 10) + rev@.reverse());
            } else {
                assert(spec_digits(mv) =~= seq![spec_digit_char(mv)]);
                assert(spec_digits(mv) + rv.reverse() =~= rev@.reverse());
            }
        }
        m = next;
    }
    let mut out = String::new();
    if rev.len() == 0 {
        push_char(&mut out, '0');
        proof {
            assert(out@ =~= spec_digits(0));
        }
        return out;
    }
    let mut j: usize = rev.len();
    proof {
        assert(out@ =~= rev@.skip(rev@.len() as int).reverse());
    }
    while j > 0
        invariant
            j <= rev.len(),
            spec_digits(n as nat) == rev@.reverse(),
            out@ == rev@.skip(j as int).reverse(),
        decreases j,
    {
        j -= 1;
        push_char(&mut out, rev[j]);
        proof {
            assert(out@ =~= rev@.skip(j as int).reverse());
        }
    }
    proof {
        assert(rev@.skip(0) =~= rev@);
    }
    out
}

/// The number of characters `n` takes in decimal, executably.
pub fn decimal_width(n: u64) -> (r: usize)
    ensures
        r == spec_digits(n as nat).len(),
{
    let s = u64_to_string(n);
    s.as_str().unicode_len()
}

/// `n` spaces.
pub fn spaces(n: usize) -> (r: String)
    ensures
        r@.len() == n,
        forall|k: int| 0 <= k < n ==> r@[k] == ' ',
{
    let mut out = String::new();
    let mut i: usize = 0;
    while i < n
        invariant
            i <= n,
            out@.len() == i,
            forall|k: int| 0 <= k < i ==> out@[k] == ' ',
        decreases n - i,
    {
        push_char(&mut out, ' ');
        i += 1;
    }
    out
}

/// Mathematical model of [`Segment`].
#[verifier::ext_equal]
pub enum SpecSegment {
    Delim(char),
    Section(Seq<char>),
}

/// A piece of a version string: a maximal alphanumeric run, or one
/// delimiter character.
#[derive(Debug)]
pub enum Segment {
    Delim(char),
    Section(String),
}

impl View for Segment {
    type V = SpecSegment;

    open spec fn view(&self) -> SpecSegment {
        match self {
            Segment::Delim(c) => SpecSegment::Delim(*c),
            Segment::Section(s) => SpecSegment::Section(s@),
        }
    }
}

impl DeepView for Segment {
    type V = SpecSegment;

    open spec fn deep_view(&self) -> SpecSegment {
        self.view()
    }
}

impl Segment {
    /// The section text, if this is a section.
    pub fn to_section(self) -> (r: Option<String>)
        ensures
            match self@ {
                SpecSegment::Section(s) => r matches Some(t) && t@ == s,
                SpecSegment::Delim(_) => r is None,
            },
    {
        if let Segment::Section(section) = self {
            Some(section)
        } else {
            None
        }
    }
}

/// One character folded onto a segment list: an alphanumeric character
/// extends a trailing section (or opens one), anything else is its own
/// delimiter segment.
pub open spec fn spec_push_segment_char(acc: Seq<SpecSegment>, c: char) -> Seq<SpecSegment> {
    if is_alphanumeric_char(c) {
        if acc.len() > 0 && (acc.last() matches SpecSegment::Section(_)) {
            acc.update(acc.len() - 1, SpecSegment::Section(acc.last()->Section_0.push(c)))
        } else {
            acc.push(SpecSegment::Section(seq![c]))
        }
    } else {
        acc.push(SpecSegment::Delim(c))
    }
}

/// A string split into segments, left to right.
pub open spec fn spec_to_segments(s: Seq<char>) -> Seq<SpecSegment>
    decreases s.len(),
{
    if s.len() == 0 {
        Seq::empty()
    } else {
        spec_push_segment_char(spec_to_segments(s.drop_last()), s.last())
    }
}

/// Splits a string into alphanumeric sections and delimiters.
pub fn to_segments(s: &str) -> (r: Vec<Segment>)
    ensures
        r.deep_view() == spec_to_segments(s@),
{
    let n = s.unicode_len();
    let mut acc: Vec<Segment> = Vec::new();
    let mut i: usize = 0;
    proof {
        assert(acc.deep_view() =~= spec_to_segments(s@.take(0)));
    }
    while i < n
        invariant
            i <= n,
            n == s@.len(),
            acc.deep_view() == spec_to_segments(s@.take(i as int)),
        decreases n - i,
    {
        let c = s.get_char(i);
        let ghost prefix = s@.take(i as int);
        proof {
            assert(s@.take(i + 1).drop_last() =~= prefix);
            assert(s@.take(i + 1).last() == c);
        }
        let ghost accv = acc.deep_view();
        if char_is_alphanumeric(c) {
            let mut extended = false;
            if acc.len() > 0 {
                let is_section = match &acc[acc.len() - 1] {
                    Segment::Section(_) => true,
                    Segment::Delim(_) => false,
                };
                if is_section {
                    let lastseg = acc.pop();
                    match lastseg {
                        Some(Segment::Section(mut sec)) => {
                            let ghost secv = sec@;
                            push_char(&mut sec, c);
                            acc.push(Segment::Section(sec));
                            proof {
                                assert(acc.deep_view() =~= accv.update(
                                    accv.len() - 1,
                                    SpecSegment::Section(secv.push(c)),
                                ));
                            }
                            extended = true;
                        },
                        _ => {
                            proof {
                                assert(false);
                            }
                        },
                    }
                }
            }
            if !extended {
                acc.push(Segment::Section(string_of_char(c)));
                proof {
                    assert(acc.deep_view() =~= accv.push(SpecSegment::Section(seq![c])));
                }
            }
        } else {
            acc.push(Segment::Delim(c));
            proof {
                assert(acc.deep_view() =~= accv.push(SpecSegment::Delim(c)));
            }
        }
        i += 1;
    }
    proof {
        assert(s@.take(n as int) =~= s@);
    }
    acc
}

/// A one-character string.
fn string_of_char(c: char) -> (r: String)
    ensures
        r@ == seq![c],
{
    let mut s = String::new();
    push_char(&mut s, c);
    proof {
        assert(s@ =~= seq![c]);
    }
    s
}

/// The sections of a segment list, in order, delimiters dropped.
pub open spec fn spec_sections(segs: Seq<SpecSegment>) -> Seq<Seq<char>>
    decreases segs.len(),
{
    if segs.len() == 0 {
        Seq::empty()
    } else {
        let rest = spec_sections(segs.drop_last());
        match segs.last() {
            SpecSegment::Section(s) => rest.push(s),
            SpecSegment::Delim(_) => rest,
        }
    }
}

/// The styling a section of the new version string gets: dim when it
/// matches the old string's corresponding section, red (for the old
/// side) or bold green (for the new side) when it changed.
pub open spec fn spec_styled(sec: Seq<char>, changed: bool, red: bool) -> Seq<char> {
    if !changed {
        "\u{1b}[2m"@ + sec + "\u{1b}[0m"@
    } else if red {
        "\u{1b}[31m"@ + sec + "\u{1b}[0m"@
    } else {
        "\u{1b}[1;32m"@ + sec + "\u{1b}[0m"@
    }
}

/// One styled section, executably.
fn styled_section(sec: &str, changed: bool, red: bool) -> (r: String)
    ensures
        r@ == spec_styled(sec@, changed, red),
{
    let open: &str = if !changed {
        "\u{1b}[2m"
    } else if red {
        "\u{1b}[31m"
    } else {
        "\u{1b}[1;32m"
    };
    let mut out = open.to_owned();
    out.append(sec);
    out.append("\u{1b}[0m");
    out
}

/// The coloured diff text from segment position `i` on, with `ai`
/// sections of the other string already consumed.
pub open spec fn spec_diff_from(
    a_secs: Seq<Seq<char>>,
    b_segs: Seq<SpecSegment>,
    ai: int,
    red: bool,
) -> Seq<char>
    decreases b_segs.len(),
{
    if b_segs.len() == 0 {
        Seq::empty()
    } else {
        match b_segs[0] {
            SpecSegment::Delim(c) => seq![c] + spec_diff_from(a_secs, b_segs.skip(1), ai, red),
            SpecSegment::Section(sec) => {
                let changed = !(0 <= ai < a_secs.len() && a_secs[ai] == sec);
                spec_styled(sec, changed, red) + spec_diff_from(a_secs, b_segs.skip(1), ai + 1, red)
            },
        }
    }
}

/// The coloured diff of version string `b` against `a`: each
/// alphanumeric section of `b` is dimmed when it equals the section of
/// `a` in the same position, and highlighted otherwise (red when `b` is
/// the old version, bold green when it is the new one); delimiters pass
/// through unstyled.
pub open spec fn spec_color_diff(a: Seq<char>, b: Seq<char>, red: bool) -> Seq<char> {
    spec_diff_from(spec_sections(spec_to_segments(a)), spec_to_segments(b), 0, red)
}

/// Colours the segments of `b` by comparison with the sections of `a`.
pub fn color_diff(a: &str, b: &str, red: bool) -> (r: String)
    ensures
        r@ == spec_color_diff(a@, b@, red),
{
    let a_segs = to_segments(a);
    let a_secs = sections_of(a_segs);
    let b_segs = to_segments(b);
    let ghost av = a_secs.deep_view();
    let ghost bv = b_segs.deep_view();
    let mut out = String::new();
    let mut ai: usize = 0;
    let mut i: usize = 0;
    proof {
        assert(bv.skip(0) =~= bv);
        assert(out@ + spec_diff_from(av, bv, 0, red) =~= spec_diff_from(av, bv, 0, red));
    }
    while i < b_segs.len()
        invariant
            i <= b_segs.len(),
            av == a_secs.deep_view(),
            bv == b_segs.deep_view(),
            bv.len() == b_segs@.len(),
            ai <= i,
            spec_color_diff(a@, b@, red) == out@ + spec_diff_from(
                av,
                bv.skip(i as int),
                ai as int,
                red,
            ),
        decreases b_segs.len() - i,
    {
        let ghost tail = bv.skip(i as int);
        proof {
            assert(tail[0] == bv[i as int]);
            assert(tail.skip(1) =~= bv.skip(i + 1));
        }
        match &b_segs[i] {
            Segment::Delim(c) => {
                let ghost ov = out@;
                push_char(&mut out, *c);
                proof {
                    assert(bv[i as int] == SpecSegment::Delim(*c));
                    assert(ov + (seq![*c] + spec_diff_from(av, bv.skip(i + 1), ai as int, red))
                        =~= out@ + spec_diff_from(av, bv.skip(i + 1), ai as int, red));
                }
            },
            Segment::Section(sec) => {
                let changed: bool = if ai < a_secs.len() {
                    !(a_secs[ai] == *sec)
                } else {
                    true
                };
                let styled = styled_section(sec.as_str(), changed, red);
                let ghost ov = out@;
                out.append(styled.as_str());
                proof {
                    assert(bv[i as int] == SpecSegment::Section(sec@));
                    if ai < a_secs.len() {
                        assert(av[ai as int] == a_secs@[ai as int]@);
                    }
                    assert(changed == !(0 <= ai < av.len() && av[ai as int] == sec@));
                    assert(ov + (spec_styled(sec@, changed, red) + spec_diff_from(
                        av,
                        bv.skip(i + 1),
                        ai + 1,
                        red,
                    )) =~= out@ + spec_diff_from(av, bv.skip(i + 1), ai + 1, red));
                }
                ai += 1;
            },
        }
        i += 1;
    }
    proof {
        assert(bv.skip(bv.len() as int).len() == 0);
        assert(out@ + Seq::<char>::empty() =~= out@);
    }
    out
}


/// Columns are padded by three spaces to keep the output tidy.
pub const COLUMN_PADDING: usize = 3;

/// `version-release`, as shown everywhere a revision is printed.
pub open spec fn spec_fmt_version(m: crate::package::SpecMeta) -> Seq<char> {
    m.version_identifier + "-"@ + spec_digits(m.source_release as nat)
}

/// Renders `version-release` for a package's metadata.
pub fn fmt_version(meta: &crate::package::Meta) -> (r: String)
    ensures
        r@ == spec_fmt_version(meta@),
{
    let mut s = meta.version_identifier.clone();
    s.append("-");
    let rel = u64_to_string(meta.source_release);
    s.append(rel.as_str());
    s
}

/// Bold text.
pub open spec fn spec_bold(s: Seq<char>) -> Seq<char> {
    "\u{1b}[1m"@ + s + "\u{1b}[0m"@
}

/// Dim text.
pub open spec fn spec_dim(s: Seq<char>) -> Seq<char> {
    "\u{1b}[2m"@ + s + "\u{1b}[0m"@
}

/// Magenta text.
pub open spec fn spec_magenta(s: Seq<char>) -> Seq<char> {
    "\u{1b}[35m"@ + s + "\u{1b}[0m"@
}

/// Wraps `s` in one styling sequence.
fn styled_wrap(open: &str, s: &str) -> (r: String)
    ensures
        r@ == open@ + s@ + "\u{1b}[0m"@,
{
    let mut out = open.to_owned();
    out.append(s);
    out.append("\u{1b}[0m");
    out
}

/// The characters a package takes in column display: name, version,
/// release, and the column padding.
pub open spec fn spec_package_display_width(p: crate::package::SpecPackage) -> int {
    p.meta.name.len() + p.meta.version_identifier.len() + spec_digits(
        p.meta.source_release as nat,
    ).len() + COLUMN_PADDING
}

pub fn package_display_width(p: &crate::package::Package) -> (r: usize)
    requires
        spec_package_display_width(p@) <= usize::MAX,
    ensures
        r == spec_package_display_width(p@),
{
    p.meta.name.as_str().unicode_len() + p.meta.version_identifier.as_str().unicode_len()
        + decimal_width(p.meta.source_release) + COLUMN_PADDING
}

/// The pad a column cell gets: at least one space.
pub open spec fn spec_pad(width: int) -> int {
    if width == 0 {
        1
    } else {
        width
    }
}

/// One padded spaces run of at least one character.
fn pad(width: usize) -> (r: String)
    ensures
        r@.len() == spec_pad(width as int),
        forall|k: int| 0 <= k < r@.len() ==> r@[k] == ' ',
{
    if width == 0 {
        spaces(1)
    } else {
        spaces(width)
    }
}

/// A package's column cell: bold name, padding, magenta version, dim
/// release, and an inter-column gap unless the cell closes its row.
pub open spec fn spec_package_display_column(
    p: crate::package::SpecPackage,
    width: int,
    last: bool,
) -> Seq<char> {
    spec_bold(p.meta.name) + " "@ + Seq::new(spec_pad(width) as nat, |k: int| ' ') + spec_magenta(
        p.meta.version_identifier,
    ) + "-"@ + spec_dim(spec_digits(p.meta.source_release as nat)) + (if last {
        Seq::<char>::empty()
    } else {
        "   "@
    })
}

pub fn package_display_column(p: &crate::package::Package, width: usize, last: bool) -> (r: String)
    ensures
        r@ == spec_package_display_column(p@, width as int, last),
{
    let mut out = styled_wrap("\u{1b}[1m", p.meta.name.as_str());
    out.append(" ");
    let padding = pad(width);
    out.append(padding.as_str());
    let ver = styled_wrap("\u{1b}[35m", p.meta.version_identifier.as_str());
    out.append(ver.as_str());
    out.append("-");
    let rel = u64_to_string(p.meta.source_release);
    let rel_dim = styled_wrap("\u{1b}[2m", rel.as_str());
    out.append(rel_dim.as_str());
    if !last {
        out.append("   ");
    }
    proof {
        assert(padding@ =~= Seq::new(spec_pad(width as int) as nat, |k: int| ' '));
        assert(out@ =~= spec_package_display_column(p@, width as int, last));
    }
    out
}

/// A package updated from one build to another.
#[derive(Debug)]
pub struct Update {
    pub old: crate::package::Package,
    pub new: crate::package::Package,
}

/// The characters an update takes in column display: the new name, both
/// revisions, the arrow, and the padding.
pub open spec fn spec_update_display_width(
    old: crate::package::SpecPackage,
    new: crate::package::SpecPackage,
) -> int {
    new.meta.name.len() + old.meta.version_identifier.len() + spec_digits(
        old.meta.source_release as nat,
    ).len() + new.meta.version_identifier.len() + spec_digits(new.meta.source_release as nat).len()
        + COLUMN_PADDING + 6
}

pub fn update_display_width(u: &Update) -> (r: usize)
    requires
        spec_update_display_width(u.old@, u.new@) <= usize::MAX,
    ensures
        r == spec_update_display_width(u.old@, u.new@),
{
    u.new.meta.name.as_str().unicode_len() + u.old.meta.version_identifier.as_str().unicode_len()
        + decimal_width(u.old.meta.source_release)
        + u.new.meta.version_identifier.as_str().unicode_len() + decimal_width(
        u.new.meta.source_release,
    ) + COLUMN_PADDING + 6
}

/// An update's column cell: bold new name, padding, then the old
/// revision with its changed sections red, an arrow, and the new
/// revision with its changed sections bold green.
pub open spec fn spec_update_display_column(
    old: crate::package::SpecPackage,
    new: crate::package::SpecPackage,
    width: int,
    last: bool,
) -> Seq<char> {
    spec_bold(new.meta.name) + " "@ + Seq::new(spec_pad(width) as nat, |k: int| ' ')
        + spec_color_diff(spec_fmt_version(new.meta), spec_fmt_version(old.meta), true) + " -> "@
        + spec_color_diff(spec_fmt_version(old.meta), spec_fmt_version(new.meta), false) + (
    if last {
        Seq::<char>::empty()
    } else {
        "   "@
    })
}

pub fn update_display_column(u: &Update, width: usize, last: bool) -> (r: String)
    ensures
        r@ == spec_update_display_column(u.old@, u.new@, width as int, last),
{
    let old_version = fmt_version(&u.old.meta);
    let new_version = fmt_version(&u.new.meta);
    let old_diff = color_diff(new_version.as_str(), old_version.as_str(), true);
    let new_diff = color_diff(old_version.as_str(), new_version.as_str(), false);
    let mut out = styled_wrap("\u{1b}[1m", u.new.meta.name.as_str());
    out.append(" ");
    let padding = pad(width);
    out.append(padding.as_str());
    out.append(old_diff.as_str());
    out.append(" -> ");
    out.append(new_diff.as_str());
    if !last {
        out.append("   ");
    }
    proof {
        assert(padding@ =~= Seq::new(spec_pad(width as int) as nat, |k: int| ' '));
        assert(out@ =~= spec_update_display_column(u.old@, u.new@, width as int, last));
    }
    out
}

/// The default file name an exported system model is written under.
pub open spec fn spec_export_filename(hostname: Option<Seq<char>>, id: u64) -> Seq<char> {
    match hostname {
        Some(h) => "system-model-"@ + h + "-fstxn-"@ + spec_digits(id as nat) + ".kdl"@,
        None => "system-model-fstxn-"@ + spec_digits(id as nat) + ".kdl"@,
    }
}

pub fn export_filename(hostname: Option<&String>, id: u64) -> (r: String)
    ensures
        r@ == spec_export_filename(
            match hostname {
                Some(h) => Some(h@),
                None => None,
            },
            id,
        ),
{
    let digits = u64_to_string(id);
    let mut out: String;
    match hostname {
        Some(h) => {
            out = "system-model-".to_owned();
            out.append(h.as_str());
            out.append("-fstxn-");
        },
        None => {
            out = "system-model-fstxn-".to_owned();
        },
    }
    out.append(digits.as_str());
    out.append(".kdl");
    out
}

/// The section texts of a segment list.
fn sections_of(segs: Vec<Segment>) -> (r: Vec<String>)
    ensures
        r.deep_view() == spec_sections(segs.deep_view()),
{
    let ghost sv = segs.deep_view();
    let mut r: Vec<String> = Vec::new();
    let mut i: usize = 0;
    proof {
        assert(r.deep_view() =~= spec_sections(sv.take(0)));
    }
    while i < segs.len()
        invariant
            i <= segs.len(),
            sv == segs.deep_view(),
            r.deep_view() == spec_sections(sv.take(i as int)),
        decreases segs.len() - i,
    {
        let ghost prefix = sv.take(i as int);
        proof {
            assert(sv.take(i + 1).drop_last() =~= prefix);
            assert(sv.take(i + 1).last() == sv[i as int]);
        }
        match &segs[i] {
            Segment::Section(sec) => {
                let ghost before = r.deep_view();
                r.push(sec.clone());
                proof {
                    assert(r.deep_view() =~= before.push(sec@));
                }
            },
            Segment::Delim(_) => {},
        }
        i += 1;
    }
    proof {
        assert(sv.take(sv.len() as int) =~= sv);
    }
    r
}

} // verus!
