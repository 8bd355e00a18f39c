//! The renderer: the tabular, branch-drawn view of a subtree as a
//! sequence of lines. Each line is a fixed-column record — the
//! branch-drawing prefix and name, then birth year, title, status,
//! position, attribute bonus and living-children count — padded by
//! display width, since names may hold wide characters.

use vstd::prelude::*;
use vstd::string::StringExecFns;

use crate::errors::TreeError;
use crate::model::MemberModel;
use crate::tree::{lemma_models_of, model_of, models_of, FamilyMember};

verus! {

/// Width of the branch-and-name column.
pub const TREE_COLUMN_WIDTH: usize = 30;

/// Width of the birth-year column.
pub const BIRTH_WIDTH: usize = 8;

/// Width of the title column.
pub const TYPE_WIDTH: usize = 12;

/// Width of the status column.
pub const STATUS_WIDTH: usize = 8;

/// Width of the position column.
pub const POSITION_WIDTH: usize = 18;

/// Width of the attribute-bonus column.
pub const ATTR_WIDTH: usize = 8;

/// Width of the living-children column.
pub const CHILD_WIDTH: usize = 8;

/// The displayed width, in columns, of a string: what the width tables
/// of the unicode-width crate give for these characters.
pub uninterp spec fn display_width(s: Seq<char>) -> int;

/// Relies on unicode_width's `UnicodeWidthStr::width`: the displayed
/// width in columns, a pure function of the characters (a table
/// lookup); an empty string spans no columns.
#[verifier::external_body]
fn width_of(s: &str) -> (r: usize)
    ensures
        r as int == display_width(s@),
        s@.len() == 0 ==> r == 0,
{
    unicode_width::UnicodeWidthStr::width(s)
}

/// Relies on std's `String::push`: appends the given character to the
/// end of the string.
#[verifier::external_body]
fn push_char(s: &mut String, c: char)
    ensures
        final(s)@ == old(s)@.push(c),
{
    s.push(c);
}

/// `n` spaces (none when `n` is not positive).
pub open spec fn spaces(n: int) -> Seq<char> {
    Seq::new(
        if n > 0 {
            n as nat
        } else {
            0nat
        },
        |i: int| ' ',
    )
}

/// `s` padded with spaces up to the displayed width `w`; a string at
/// least that wide is kept as it is.
pub open spec fn padded(s: Seq<char>, w: int) -> Seq<char> {
    s + spaces(w - display_width(s))
}

/// The decimal digits of `n` (for `n >= 0`).
pub open spec fn dec_chars(n: int) -> Seq<char>
    decreases n,
{
    if n < 10 {
        seq![dec_digit(n)]
    } else {
        dec_chars(n / 10).push(dec_digit(n % 10))
    }
}

pub open spec fn dec_digit(d: int) -> char {
    if d == 0 {
        '0'
    } else if d == 1 {
        '1'
    } else if d == 2 {
        '2'
    } else if d == 3 {
        '3'
    } else if d == 4 {
        '4'
    } else if d == 5 {
        '5'
    } else if d == 6 {
        '6'
    } else if d == 7 {
        '7'
    } else if d == 8 {
        '8'
    } else {
        '9'
    }
}

fn digit_char(d: u8) -> (c: char)
    requires
        d < 10,
    ensures
        c == dec_digit(d as int),
{
    match d {
        0 => '0',
        1 => '1',
        2 => '2',
        3 => '3',
        4 => '4',
        5 => '5',
        6 => '6',
        7 => '7',
        8 => '8',
        _ => '9',
    }
}

/// Decimal rendering of an unsigned number.
fn dec_string(n: u64) -> (r: String)
    ensures
        r@ == dec_chars(n as int),
    decreases n,
{
    if n < 10 {
        let mut s = String::new();
        push_char(&mut s, digit_char((n % 10) as u8));
        proof {
            assert(s@ =~= seq![dec_digit(n as int)]);
        }
        s
    } else {
        let mut s = dec_string(n / 10);
        push_char(&mut s, digit_char((n % 10) as u8));
        s
    }
}

/// Append `s` to `out`, then spaces up to the displayed width `w`.
fn append_padded(out: &mut String, s: &str, w: usize)
    ensures
        final(out)@ == old(out)@ + padded(s@, w as int),
{
    out.append(s);
    let used = width_of(s);
    let pad: usize = if used >= w {
        0
    } else {
        w - used
    };
    proof {
        assert(spaces(0) =~= Seq::<char>::empty());
        assert(out@ =~= old(out)@ + s@ + spaces(0));
    }
    let mut j: usize = 0;
    while j < pad
        invariant
            j <= pad,
            pad as int == (if w as int - display_width(s@) > 0 {
                w as int - display_width(s@)
            } else {
                0int
            }),
            out@ == old(out)@ + s@ + spaces(j as int),
        decreases pad - j,
    {
        push_char(out, ' ');
        proof {
            assert(spaces(j + 1) =~= spaces(j as int).push(' '));
            assert(out@ =~= old(out)@ + s@ + spaces(j + 1));
        }
        j += 1;
    }
    proof {
        assert(spaces(pad as int) =~= spaces(w as int - display_width(s@)));
        assert(out@ =~= old(out)@ + (s@ + spaces(w as int - display_width(s@))));
    }
}

/// The indentation drawn for the ancestors: three blanks where the
/// ancestor was the last of its siblings, a continuation bar otherwise.
pub open spec fn marker_prefix(markers: Seq<bool>) -> Seq<char>
    decreases markers,
{
    if markers.len() == 0 {
        Seq::empty()
    } else {
        marker_prefix(markers.drop_last()) + (if markers.last() {
            seq![' ', ' ', ' ']
        } else {
            seq!['│', ' ', ' ']
        })
    }
}

/// The branch glyph of a node: none at the rendered root, a corner for
/// the last sibling, a tee otherwise.
pub open spec fn branch_glyph(is_root: bool, is_last: bool) -> Seq<char> {
    if is_root {
        Seq::empty()
    } else if is_last {
        seq!['└', '─', ' ']
    } else {
        seq!['├', '─', ' ']
    }
}

pub open spec fn status_chars(is_dead: bool) -> Seq<char> {
    if is_dead {
        seq!['已', '故']
    } else {
        Seq::empty()
    }
}

pub open spec fn position_chars(p: Option<Seq<char>>) -> Seq<char> {
    match p {
        Some(s) => s,
        None => seq!['-'],
    }
}

/// How many direct children are alive.
pub open spec fn living_children_seq(s: Seq<MemberModel>) -> nat
    decreases s,
{
    if s.len() == 0 {
        0
    } else {
        living_children_seq(s.drop_last()) + (if s.last().is_dead {
            0nat
        } else {
            1nat
        })
    }
}

/// One record line of the table.
pub open spec fn line_of(m: MemberModel, markers: Seq<bool>, is_root: bool, is_last: bool) -> Seq<
    char,
> {
    padded(marker_prefix(markers) + branch_glyph(is_root, is_last) + m.name, TREE_COLUMN_WIDTH as int)
        + padded(dec_chars(m.birth_year as int), BIRTH_WIDTH as int) + padded(
        m.member_type.title_chars(),
        TYPE_WIDTH as int,
    ) + padded(status_chars(m.is_dead), STATUS_WIDTH as int) + padded(
        position_chars(m.position),
        POSITION_WIDTH as int,
    ) + padded(dec_chars(m.hoser_power_add as int), ATTR_WIDTH as int) + padded(
        dec_chars(living_children_seq(m.children) as int),
        CHILD_WIDTH as int,
    )
}

/// The lines of a subtree: the node's own line, then each child's
/// subtree in order; the markers gain this node's last-sibling flag.
pub open spec fn render_subtree(
    m: MemberModel,
    markers: Seq<bool>,
    is_root: bool,
    is_last: bool,
) -> Seq<Seq<char>>
    decreases m, 1int,
{
    seq![line_of(m, markers, is_root, is_last)] + render_forest(
        m.children,
        markers.push(is_last),
        m.children.len() as int,
    )
}

/// The lines of the first `upto` subtrees of a forest; the `upto`-th
/// element, when it is the forest's last, is marked as such.
pub open spec fn render_forest(s: Seq<MemberModel>, markers: Seq<bool>, upto: int) -> Seq<
    Seq<char>,
>
    decreases s, 0int, upto,
{
    if upto <= 0 || upto > s.len() {
        Seq::empty()
    } else {
        render_forest(s, markers, upto - 1) + render_subtree(
            s[upto - 1],
            markers,
            false,
            upto == s.len(),
        )
    }
}

/// The table border: eighty heavy horizontal bars.
pub open spec fn border_chars() -> Seq<char> {
    Seq::new(80, |i: int| '━')
}

/// The column headers, each padded to its column's width.
pub open spec fn header_chars() -> Seq<char> {
    padded(seq!['姓', '名'], TREE_COLUMN_WIDTH as int) + padded(
        seq!['出', '生'],
        BIRTH_WIDTH as int,
    ) + padded(seq!['类', '别'], TYPE_WIDTH as int) + padded(seq!['状', '态'], STATUS_WIDTH as int)
        + padded(seq!['职', '位'], POSITION_WIDTH as int) + padded(
        seq!['威', '望', '+'],
        ATTR_WIDTH as int,
    ) + padded(seq!['子', '嗣'], CHILD_WIDTH as int)
}

/// The three lines above the table: a border, the column headers, and a
/// border again.
pub fn table_header() -> (r: Vec<String>)
    ensures
        r.deep_view() == seq![border_chars(), header_chars(), border_chars()],
{
    let mut border = String::new();
    let mut i: usize = 0;
    while i < 80
        invariant
            i <= 80,
            border@ == Seq::new(i as nat, |j: int| '━'),
        decreases 80 - i,
    {
        push_char(&mut border, '━');
        proof {
            assert(border@ =~= Seq::new((i + 1) as nat, |j: int| '━'));
        }
        i += 1;
    }
    proof {
        reveal_strlit("姓名");
        reveal_strlit("出生");
        reveal_strlit("类别");
        reveal_strlit("状态");
        reveal_strlit("职位");
        reveal_strlit("威望+");
        reveal_strlit("子嗣");
        assert("姓名"@ =~= seq!['姓', '名']);
        assert("出生"@ =~= seq!['出', '生']);
        assert("类别"@ =~= seq!['类', '别']);
        assert("状态"@ =~= seq!['状', '态']);
        assert("职位"@ =~= seq!['职', '位']);
        assert("威望+"@ =~= seq!['威', '望', '+']);
        assert("子嗣"@ =~= seq!['子', '嗣']);
    }
    let mut header = String::new();
    append_padded(&mut header, "姓名", TREE_COLUMN_WIDTH);
    append_padded(&mut header, "出生", BIRTH_WIDTH);
    append_padded(&mut header, "类别", TYPE_WIDTH);
    append_padded(&mut header, "状态", STATUS_WIDTH);
    append_padded(&mut header, "职位", POSITION_WIDTH);
    append_padded(&mut header, "威望+", ATTR_WIDTH);
    append_padded(&mut header, "子嗣", CHILD_WIDTH);
    proof {
        assert(header@ =~= header_chars());
    }
    let border2 = border.clone();
    let mut out: Vec<String> = Vec::new();
    out.push(border);
    out.push(header);
    out.push(border2);
    proof {
        assert(out.deep_view() =~= seq![border_chars(), header_chars(), border_chars()]);
    }
    out
}

impl FamilyMember {
    /// Count of this member's living direct children.
    pub fn living_children(&self) -> (n: usize)
        ensures
            n as nat == living_children_seq(self@.children),
    {
        let k = self.children.len();
        let ghost cm = models_of(self.children@);
        proof {
            lemma_models_of(self.children@);
        }
        let mut n: usize = 0;
        let mut i: usize = 0;
        while i < k
            invariant
                i <= k,
                n <= i,
                k == self.children.len(),
                cm == models_of(self.children@),
                cm.len() == k,
                forall|j: int| 0 <= j < k ==> #[trigger] cm[j] == model_of(self.children@[j]),
                n as nat == living_children_seq(cm.subrange(0, i as int)),
            decreases k - i,
        {
            if !self.children[i].is_dead {
                n = n + 1;
            }
            proof {
                assert(cm.subrange(0, i + 1).drop_last() =~= cm.subrange(0, i as int));
                assert(cm.subrange(0, i + 1).last() == cm[i as int]);
            }
            i += 1;
        }
        proof {
            assert(cm.subrange(0, k as int) =~= cm);
        }
        n
    }

    /// Append this subtree's table lines to `out`.
    fn render_into(&self, markers: &Vec<bool>, is_root: bool, is_last: bool, out: &mut Vec<String>)
        ensures
            final(out).deep_view() == old(out).deep_view() + render_subtree(
                self@,
                markers@,
                is_root,
                is_last,
            ),
        decreases *self,
    {
        proof {
            reveal_strlit("   ");
            reveal_strlit("│  ");
            reveal_strlit("└─ ");
            reveal_strlit("├─ ");
            reveal_strlit("已故");
            reveal_strlit("");
            reveal_strlit("-");
        }
        let mut name_col = String::new();
        let mk = markers.len();
        let mut j: usize = 0;
        while j < mk
            invariant
                j <= mk,
                mk == markers.len(),
                name_col@ == marker_prefix(markers@.subrange(0, j as int)),
            decreases mk - j,
        {
            if markers[j] {
                name_col.append("   ");
            } else {
                name_col.append("│  ");
            }
            proof {
                reveal_strlit("   ");
                reveal_strlit("│  ");
                assert("   "@ =~= seq![' ', ' ', ' ']);
                assert("│  "@ =~= seq!['│', ' ', ' ']);
                assert(markers@.subrange(0, j + 1).drop_last() =~= markers@.subrange(0, j as int));
                assert(markers@.subrange(0, j + 1).last() == markers@[j as int]);
            }
            j += 1;
        }
        proof {
            assert(markers@.subrange(0, mk as int) =~= markers@);
        }
        if !is_root {
            if is_last {
                name_col.append("└─ ");
                proof {
                    assert("└─ "@ =~= seq!['└', '─', ' ']);
                }
            } else {
                name_col.append("├─ ");
                proof {
                    assert("├─ "@ =~= seq!['├', '─', ' ']);
                }
            }
        }
        proof {
            assert(name_col@ =~= marker_prefix(markers@) + branch_glyph(is_root, is_last));
        }
        name_col.append(self.name.as_str());
        let mut line = String::new();
        append_padded(&mut line, name_col.as_str(), TREE_COLUMN_WIDTH);
        let birth = dec_string(self.birth_year as u64);
        append_padded(&mut line, birth.as_str(), BIRTH_WIDTH);
        let ttl = self.member_type.title();
        append_padded(&mut line, ttl.as_str(), TYPE_WIDTH);
        let status: &str = if self.is_dead {
            "已故"
        } else {
            ""
        };
        proof {
            assert(status@ =~= status_chars(self@.is_dead));
        }
        append_padded(&mut line, status, STATUS_WIDTH);
        let pos: &str = match &self.position {
            Some(p) => p.as_str(),
            None => "-",
        };
        proof {
            assert(pos@ =~= position_chars(self@.position));
        }
        append_padded(&mut line, pos, POSITION_WIDTH);
        let attr = dec_string(self.hoser_power_add as u64);
        append_padded(&mut line, attr.as_str(), ATTR_WIDTH);
        let cnt = self.living_children();
        let cnts = dec_string(cnt as u64);
        append_padded(&mut line, cnts.as_str(), CHILD_WIDTH);
        proof {
            assert(line@ =~= line_of(self@, markers@, is_root, is_last));
        }
        let ghost out0 = out.deep_view();
        out.push(line);
        proof {
            assert(out.deep_view() =~= out0.push(line_of(self@, markers@, is_root, is_last)));
        }
        let mut child_markers: Vec<bool> = Vec::new();
        let mut t: usize = 0;
        while t < mk
            invariant
                t <= mk,
                mk == markers.len(),
                child_markers@ == markers@.subrange(0, t as int),
            decreases mk - t,
        {
            child_markers.push(markers[t]);
            proof {
                assert(child_markers@ =~= markers@.subrange(0, t + 1));
            }
            t += 1;
        }
        proof {
            assert(markers@.subrange(0, mk as int) =~= markers@);
        }
        child_markers.push(is_last);
        let k = self.children.len();
        let ghost cm = models_of(self.children@);
        proof {
            lemma_models_of(self.children@);
        }
        let mut i: usize = 0;
        while i < k
            invariant
                i <= k,
                k == self.children.len(),
                cm == models_of(self.children@),
                cm.len() == k,
                forall|j2: int| 0 <= j2 < k ==> #[trigger] cm[j2] == model_of(self.children@[j2]),
                child_markers@ == markers@.push(is_last),
                out.deep_view() == out0.push(line_of(self@, markers@, is_root, is_last))
                    + render_forest(cm, markers@.push(is_last), i as int),
            decreases k - i,
        {
            proof {
                assert(decreases_to!(*self => self.children));
                assert(decreases_to!(self.children => self.children@));
                assert(decreases_to!(self.children@ => self.children@[i as int]));
            }
            let last_child = i == k - 1;
            self.children[i].render_into(&child_markers, false, last_child, out);
            i += 1;
        }
        proof {
            assert(final(out).deep_view() =~= old(out).deep_view() + render_subtree(
                self@,
                markers@,
                is_root,
                is_last,
            ));
        }
    }

    /// The table lines of the whole tree, or of the named member's
    /// subtree rendered as its own root. Fails when the named member is
    /// absent.
    pub fn render(&self, target: Option<&str>) -> (r: Result<Vec<String>, TreeError>)
        ensures
            match r {
                Ok(lines) => match target {
                    None => lines.deep_view() == render_subtree(self@, Seq::empty(), true, true),
                    Some(t) => self@.lookup(t@) matches Some(n) && lines.deep_view()
                        == render_subtree(n, Seq::empty(), true, true),
                },
                Err(TreeError::NotFound(n)) => target matches Some(t) && n@ == t@
                    && !self@.contains_name(t@),
                Err(_) => false,
            },
    {
        let empty_markers: Vec<bool> = Vec::new();
        let mut out: Vec<String> = Vec::new();
        match target {
            None => {
                self.render_into(&empty_markers, true, true, &mut out);
                proof {
                    assert(out.deep_view() =~= render_subtree(self@, Seq::empty(), true, true));
                }
                Ok(out)
            },
            Some(t) => {
                proof {
                    crate::model::lemma_lookup_contains(self@, t@);
                }
                match self.find_member_by_name(t) {
                    None => Err(TreeError::NotFound(t.to_owned())),
                    Some(node) => {
                        node.render_into(&empty_markers, true, true, &mut out);
                        proof {
                            assert(out.deep_view() =~= render_subtree(
                                node@,
                                Seq::empty(),
                                true,
                                true,
                            ));
                        }
                        Ok(out)
                    },
                }
            },
        }
    }
}

} // verus!
