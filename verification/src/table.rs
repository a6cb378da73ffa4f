//! The layout of a future written as a table: one column for each member, one
//! line for each state.
use vstd::prelude::*;
use crate::async_fn::{Layout, LayoutView, Member, MemberView, State, StateView};
use crate::text::{decimal, push_chars, push_decimal, push_text, string_of};

verus! {

/// `n` times the character `c`.
pub open spec fn repeated(c: char, n: int) -> Seq<char> {
    Seq::new(
        if n > 0 {
            n as nat
        } else {
            0
        },
        |i: int| c,
    )
}

/// The two lines that head the column of a member: its name and type, and
/// its offset and size.
pub open spec fn member_head(m: MemberView) -> (Seq<char>, Seq<char>) {
    (m.name + ": "@ + m.ty.text(), decimal(m.offset as nat) + "["@ + decimal(m.size as nat) + "]"@)
}

/// The heads of the columns of the table of `l`: one for each member, one
/// for the state, and one for the awaitee.
pub open spec fn heads(l: LayoutView) -> Seq<(Seq<char>, Seq<char>)> {
    Seq::new(l.members.len(), |i: int| member_head(l.members[i])).push(
        member_head(l.state_member),
    ).push(("awaitee"@, Seq::empty()))
}

/// The width of a column: that of the wider line of its head.
pub open spec fn width_of(head: (Seq<char>, Seq<char>)) -> int {
    if head.0.len() >= head.1.len() {
        head.0.len() as int
    } else {
        head.1.len() as int
    }
}

/// What stands before the first column.
pub open spec fn margin() -> Seq<char> {
    "          | "@
}

/// The position at which the column `i` starts.
pub open spec fn start_of(heads: Seq<(Seq<char>, Seq<char>)>, i: int) -> int
    decreases i,
{
    if i <= 0 {
        margin().len() as int
    } else {
        start_of(heads, i - 1) + width_of(heads[i - 1]) + 3
    }
}

/// The first `n` columns of the upper or of the lower line of the head of
/// the table, each filled up to its width and followed by ` | `.
pub open spec fn head_line(heads: Seq<(Seq<char>, Seq<char>)>, upper: bool, n: int) -> Seq<char>
    decreases n,
{
    if n <= 0 {
        margin()
    } else {
        let text = if upper {
            heads[n - 1].0
        } else {
            heads[n - 1].1
        };
        head_line(heads, upper, n - 1) + text + repeated(
            ' ',
            width_of(heads[n - 1]) - text.len(),
        ) + " | "@
    }
}

/// The line of a state up to its first `n` active members: the name of the
/// state, and a stroke under the column of each of these members.
pub open spec fn strokes(heads: Seq<(Seq<char>, Seq<char>)>, s: StateView, n: int) -> Seq<char>
    decreases n,
{
    if n <= 0 {
        s.name
    } else {
        let before = strokes(heads, s, n - 1);
        let column = s.active_members[n - 1] as int;
        before + repeated(' ', start_of(heads, column) - end_of(heads, s, n - 1)) + repeated(
            '-',
            width_of(heads[column]),
        )
    }
}

/// The position at which the line of a state ends after the strokes of its
/// first `n` active members.
pub open spec fn end_of(heads: Seq<(Seq<char>, Seq<char>)>, s: StateView, n: int) -> int {
    if n <= 0 {
        s.name.len() as int
    } else {
        start_of(heads, s.active_members[n - 1] as int) + width_of(
            heads[s.active_members[n - 1] as int],
        )
    }
}

/// The line of the state `s` in the table of `l`: its name, the strokes
/// under the members that hold a value in it, its discriminant value in
/// the column of the state, and the future that it waits for.
pub open spec fn state_line(l: LayoutView, s: StateView) -> Seq<char> {
    let heads = heads(l);
    let n = s.active_members.len() as int;
    let state_column = l.members.len() as int;
    let awaitee_column = state_column + 1;
    let discriminant = decimal(s.discriminant_value as nat);
    strokes(heads, s, n) + repeated(' ', start_of(heads, state_column) - end_of(heads, s, n))
        + discriminant + repeated(' ', width_of(heads[state_column]) - discriminant.len()) + (
    match s.awaitee {
        Some(a) => repeated(
            ' ',
            start_of(heads, awaitee_column) - (start_of(heads, state_column) + width_of(
                heads[state_column],
            )),
        ) + decimal(a.offset as nat) + "["@ + decimal(a.size as nat) + "] "@ + a.ty.text(),
        None => Seq::empty(),
    }) + "\n"@
}

/// The lines of the first `n` states of `l`.
pub open spec fn state_lines(l: LayoutView, n: int) -> Seq<char>
    decreases n,
{
    if n <= 0 {
        Seq::empty()
    } else {
        state_lines(l, n - 1) + state_line(l, l.states[n - 1])
    }
}

/// The table of the layout `l`: two lines that head the columns, an empty
/// line, and one line for each state.
pub open spec fn table_of(l: LayoutView) -> Seq<char> {
    head_line(heads(l), true, heads(l).len() as int) + "\n"@ + head_line(
        heads(l),
        false,
        heads(l).len() as int,
    ) + "\n\n"@ + state_lines(l, l.states.len() as int)
}

/// Appends `n` times the character `c` to `out`; nothing where `n` is
/// below zero.
fn push_repeated(out: &mut Vec<char>, c: char, from: usize, to: usize)
    ensures
        final(out)@ == old(out)@ + repeated(c, to - from),
{
    let mut k: usize = from;
    proof {
        assert(old(out)@ + repeated(c, 0) =~= old(out)@);
        if to <= from {
            assert(repeated(c, to - from) =~= repeated(c, 0));
        }
    }
    while k < to
        invariant
            from <= k,
            k <= to || to <= from,
            to <= from ==> k == from,
            out@ == old(out)@ + repeated(c, k - from),
        decreases to - k,
    {
        out.push(c);
        proof {
            assert(out@ =~= old(out)@ + repeated(c, k + 1 - from));
        }
        k += 1;
    }
}

/// The head of the column of a member.
fn head_of(m: &Member) -> (head: (Vec<char>, Vec<char>))
    ensures
        (head.0@, head.1@) == member_head(m@),
{
    let mut upper: Vec<char> = Vec::new();
    push_text(&mut upper, m.name.as_str());
    push_text(&mut upper, ": ");
    m.ty.write_to(&mut upper);
    let mut lower: Vec<char> = Vec::new();
    push_decimal(&mut lower, m.offset);
    push_text(&mut lower, "[");
    push_decimal(&mut lower, m.size);
    push_text(&mut lower, "]");
    proof {
        assert(upper@ =~= member_head(m@).0);
        assert(lower@ =~= member_head(m@).1);
    }
    (upper, lower)
}

/// The mathematical values of the heads of columns.
pub open spec fn heads_view(heads: Seq<(Vec<char>, Vec<char>)>) -> Seq<(Seq<char>, Seq<char>)> {
    heads.map_values(|h: (Vec<char>, Vec<char>)| (h.0@, h.1@))
}

fn width(head: &(Vec<char>, Vec<char>)) -> (w: usize)
    ensures
        w == width_of((head.0@, head.1@)),
{
    if head.0.len() >= head.1.len() {
        head.0.len()
    } else {
        head.1.len()
    }
}

impl Layout {
    /// Writes the layout as a table: the members side by side, and for each
    /// state which of the members hold a value in it, its discriminant
    /// value and the future that it waits for. Nothing is written for a
    /// table that is too wide to count its columns.
    pub fn to_string(&self) -> (text: Option<String>)
        requires
            self@.wf(),
        ensures
            match text {
                Some(t) => t@ == table_of(self@),
                None => start_of(heads(self@), heads(self@).len() as int) > usize::MAX,
            },
    {
        let ghost l = self@;
        // The heads of the columns.
        let mut columns: Vec<(Vec<char>, Vec<char>)> = Vec::new();
        let mut i: usize = 0;
        while i < self.members.len()
            invariant
                i <= self.members.len(),
                l == self@,
                columns.len() == i,
                forall|k: int|
                    0 <= k < i ==> ((#[trigger] columns@[k]).0@, columns@[k].1@) == member_head(
                        l.members[k],
                    ),
            decreases self.members.len() - i,
        {
            proof {
                assert(l.members[i as int] == self.members@[i as int]@);
            }
            let head = head_of(&self.members[i]);
            columns.push(head);
            i += 1;
        }
        columns.push(head_of(&self.state_member));
        let mut awaitee: Vec<char> = Vec::new();
        push_text(&mut awaitee, "awaitee");
        columns.push((awaitee, Vec::new()));
        proof {
            let made = heads_view(columns@);
            assert(made.len() == heads(l).len());
            assert forall|k: int| 0 <= k < made.len() implies made[k] == heads(l)[k] by {
                assert(made[k] == (columns@[k].0@, columns@[k].1@));
            }
            assert(made =~= heads(l));
        }
        // Where the columns start.
        let mut starts: Vec<usize> = Vec::new();
        let mut upper: Vec<char> = Vec::new();
        let mut lower: Vec<char> = Vec::new();
        push_text(&mut upper, "          | ");
        push_text(&mut lower, "          | ");
        let mut c: usize = 0;
        let mut start: usize = upper.len();
        while c < columns.len()
            invariant
                c <= columns.len(),
                l == self@,
                heads_view(columns@) == heads(l),
                starts.len() == c,
                start == start_of(heads(l), c as int),
                forall|k: int| 0 <= k < c ==> (#[trigger] starts@[k]) == start_of(heads(l), k),
                upper@ == head_line(heads(l), true, c as int),
                lower@ == head_line(heads(l), false, c as int),
            decreases columns.len() - c,
        {
            let w = width(&columns[c]);
            proof {
                assert(heads(l)[c as int] == (columns@[c as int].0@, columns@[c as int].1@));
            }
            if w > usize::MAX - 3 || start > usize::MAX - 3 - w {
                proof {
                    lemma_starts_rise(heads(l), c as int + 1, heads(l).len() as int);
                }
                return None;
            }
            starts.push(start);
            push_chars(&mut upper, &columns[c].0);
            push_repeated(&mut upper, ' ', columns[c].0.len(), w);
            push_text(&mut upper, " | ");
            push_chars(&mut lower, &columns[c].1);
            push_repeated(&mut lower, ' ', columns[c].1.len(), w);
            push_text(&mut lower, " | ");
            proof {
                reveal_strlit(" | ");
                assert(upper@ =~= head_line(heads(l), true, c as int + 1));
                assert(lower@ =~= head_line(heads(l), false, c as int + 1));
            }
            start = start + w + 3;
            c += 1;
        }
        let mut out: Vec<char> = Vec::new();
        push_chars(&mut out, &upper);
        push_text(&mut out, "\n");
        push_chars(&mut out, &lower);
        push_text(&mut out, "\n\n");
        let ghost head = out@;
        proof {
            assert(head =~= head_line(heads(l), true, heads(l).len() as int) + "\n"@ + head_line(
                heads(l),
                false,
                heads(l).len() as int,
            ) + "\n\n"@);
            assert(head + state_lines(l, 0) =~= head);
        }
        let state_column = self.members.len();
        let mut s: usize = 0;
        while s < self.states.len()
            invariant
                s <= self.states.len(),
                l == self@,
                l.wf(),
                heads_view(columns@) == heads(l),
                columns.len() == l.members.len() + 2,
                state_column == l.members.len(),
                starts.len() == columns.len(),
                forall|k: int|
                    0 <= k < starts.len() ==> (#[trigger] starts@[k]) == start_of(heads(l), k),
                start_of(heads(l), heads(l).len() as int) <= usize::MAX,
                out@ == head + state_lines(l, s as int),
            decreases self.states.len() - s,
        {
            let state = &self.states[s];
            let ghost before = out@;
            proof {
                assert(l.states[s as int] == state@);
                assert(state@.fits(l.members.len(), l.total_size));
            }
            let line = self.line_of(state, &columns, &starts);
            push_chars(&mut out, &line);
            proof {
                assert(out@ =~= head + state_lines(l, s as int + 1));
            }
            s += 1;
        }
        Some(string_of(&out))
    }

    fn line_of(
        &self,
        state: &State,
        columns: &Vec<(Vec<char>, Vec<char>)>,
        starts: &Vec<usize>,
    ) -> (line: Vec<char>)
        requires
            state@.fits(self@.members.len(), self.total_size),
            heads_view(columns@) == heads(self@),
            columns.len() == self@.members.len() + 2,
            starts.len() == columns.len(),
            forall|k: int|
                0 <= k < starts.len() ==> (#[trigger] starts@[k]) == start_of(heads(self@), k),
            start_of(heads(self@), heads(self@).len() as int) <= usize::MAX,
        ensures
            line@ == state_line(self@, state@),
    {
        let ghost l = self@;
        let ghost hs = heads(l);
        let mut line: Vec<char> = Vec::new();
        push_text(&mut line, state.name.as_str());
        let mut end: usize = line.len();
        let mut k: usize = 0;
        proof {
            lemma_starts_rise(hs, 0, hs.len() as int);
        }
        while k < state.active_members.len()
            invariant
                k <= state.active_members.len(),
                l == self@,
                hs == heads(l),
                state@.fits(l.members.len(), l.total_size),
                heads_view(columns@) == hs,
                columns.len() == l.members.len() + 2,
                starts.len() == columns.len(),
                forall|j: int| 0 <= j < starts.len() ==> (#[trigger] starts@[j]) == start_of(hs, j),
                start_of(hs, hs.len() as int) <= usize::MAX,
                line@ == strokes(hs, state@, k as int),
                end == end_of(hs, state@, k as int),
            decreases state.active_members.len() - k,
        {
            let column = state.active_members[k];
            proof {
                assert(state@.active_members[k as int] < l.members.len());
                assert(hs[column as int] == (columns@[column as int].0@, columns@[column as int].1@));
                lemma_starts_rise(hs, column as int + 1, hs.len() as int);
            }
            let w = width(&columns[column]);
            push_repeated(&mut line, ' ', end, starts[column]);
            push_repeated(&mut line, '-', 0, w);
            end = starts[column] + w;
            proof {
                assert(line@ =~= strokes(hs, state@, k as int + 1));
            }
            k += 1;
        }
        let state_column = self.members.len();
        proof {
            assert(hs[state_column as int] == (
                columns@[state_column as int].0@,
                columns@[state_column as int].1@,
            ));
            lemma_starts_rise(hs, state_column as int + 1, hs.len() as int);
            lemma_starts_rise(hs, state_column as int + 2, hs.len() as int);
        }
        let w = width(&columns[state_column]);
        push_repeated(&mut line, ' ', end, starts[state_column]);
        let mut discriminant: Vec<char> = Vec::new();
        push_decimal(&mut discriminant, state.discriminant_value);
        push_chars(&mut line, &discriminant);
        push_repeated(&mut line, ' ', discriminant.len(), w);
        match &state.awaitee {
            Some(a) => {
                push_repeated(
                    &mut line,
                    ' ',
                    starts[state_column] + w,
                    starts[state_column + 1],
                );
                push_decimal(&mut line, a.offset);
                push_text(&mut line, "[");
                push_decimal(&mut line, a.size);
                push_text(&mut line, "] ");
                a.ty.write_to(&mut line);
            },
            None => {},
        }
        push_text(&mut line, "\n");
        proof {
            assert(line@ =~= state_line(l, state@));
        }
        line
    }
}

/// The columns start further to the right, one after the other.
proof fn lemma_starts_rise(heads: Seq<(Seq<char>, Seq<char>)>, i: int, n: int)
    requires
        0 <= i <= n,
    ensures
        0 <= start_of(heads, 0) <= start_of(heads, i) <= start_of(heads, n),
        i > 0 ==> start_of(heads, i) == start_of(heads, i - 1) + width_of(heads[i - 1]) + 3,
    decreases n,
{
    if i > 0 {
        lemma_starts_rise(heads, i - 1, i - 1);
    }
    if i < n {
        lemma_starts_rise(heads, i, n - 1);
    }
}

} // verus!
