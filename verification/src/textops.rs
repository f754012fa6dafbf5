//! Text assembly for the seeded prompts and the serialized diff.

use vstd::prelude::*;

verus! {

/// One serialized diff line: the marker character, a colon, the line's
/// bytes. The marker tells the model the line's role in the diff — added,
/// removed, context, file header or hunk header.
pub open spec fn diff_line_spec(origin: u8, content: Seq<u8>) -> Seq<u8> {
    seq![origin, 0x3au8] + content
}

/// The whole serialized diff: every line in order, each with its marker.
pub open spec fn diff_text_spec(lines: Seq<(u8, Seq<u8>)>) -> Seq<u8>
    decreases lines.len(),
{
    if lines.len() == 0 {
        Seq::empty()
    } else {
        diff_line_spec(lines[0].0, lines[0].1) + diff_text_spec(lines.drop_first())
    }
}

/// Serializing one more line appends that line's bytes.
pub proof fn lemma_diff_snoc(lines: Seq<(u8, Seq<u8>)>, l: (u8, Seq<u8>))
    ensures
        diff_text_spec(lines.push(l)) == diff_text_spec(lines) + diff_line_spec(l.0, l.1),
    decreases lines.len(),
{
    if lines.len() == 0 {
        assert(lines.push(l)[0] == l);
        assert(lines.push(l).drop_first() =~= Seq::<(u8, Seq<u8>)>::empty());
        assert(diff_text_spec(Seq::<(u8, Seq<u8>)>::empty()) == Seq::<u8>::empty());
        assert(diff_text_spec(lines.push(l)) =~= diff_line_spec(l.0, l.1));
        assert(diff_text_spec(lines) + diff_line_spec(l.0, l.1) =~= diff_line_spec(l.0, l.1));
    } else {
        assert(lines.push(l).drop_first() =~= lines.drop_first().push(l));
        assert(lines.push(l)[0] == lines[0]);
        lemma_diff_snoc(lines.drop_first(), l);
        assert(diff_line_spec(lines[0].0, lines[0].1) + (diff_text_spec(lines.drop_first())
            + diff_line_spec(l.0, l.1)) =~= (diff_line_spec(lines[0].0, lines[0].1)
            + diff_text_spec(lines.drop_first())) + diff_line_spec(l.0, l.1));
    }
}

/// The view of a vector of raw diff lines.
pub open spec fn diff_lines_view(lines: Seq<(u8, Vec<u8>)>) -> Seq<(u8, Seq<u8>)> {
    lines.map_values(|p: (u8, Vec<u8>)| (p.0, p.1@))
}

/// Serializes raw diff lines — marker byte and line bytes — into the one
/// text handed to the model, each line prefixed by its marker and a colon.
#[verifier::loop_isolation(false)]
pub fn format_diff_lines(lines: &Vec<(u8, Vec<u8>)>) -> (out: Vec<u8>)
    ensures
        out@ == diff_text_spec(diff_lines_view(lines@)),
{
    let ghost lv = diff_lines_view(lines@);
    let mut out: Vec<u8> = Vec::new();
    proof {
        assert(diff_text_spec(lv.take(0)) =~= Seq::<u8>::empty());
        assert(out@ =~= diff_text_spec(lv.take(0)));
    }
    let mut k: usize = 0;
    while k < lines.len()
        invariant
            k <= lv.len(),
            lv.len() == lines@.len(),
            out@ == diff_text_spec(lv.take(k as int)),
        decreases lv.len() - k,
    {
        out.push(lines[k].0);
        out.push(0x3a);
        crate::accumulator::append_bytes(&mut out, &lines[k].1);
        k += 1;
        proof {
            lemma_diff_snoc(lv.take(k - 1), lv[k - 1]);
            assert(lv.take(k as int) =~= lv.take(k - 1).push(lv[k - 1]));
            assert(out@ =~= diff_text_spec(lv.take(k - 1)) + diff_line_spec(
                lv[k - 1].0,
                lv[k - 1].1,
            ));
        }
    }
    proof {
        assert(lv.take(lv.len() as int) =~= lv);
    }
    out
}

/// The parts joined by the separator, in order.
pub open spec fn join_spec(parts: Seq<Seq<u8>>, sep: Seq<u8>) -> Seq<u8>
    decreases parts.len(),
{
    if parts.len() == 0 {
        Seq::empty()
    } else if parts.len() == 1 {
        parts[0]
    } else {
        parts[0] + sep + join_spec(parts.drop_first(), sep)
    }
}

/// Joining one more part appends the separator and the part.
pub proof fn lemma_join_snoc(parts: Seq<Seq<u8>>, sep: Seq<u8>, p: Seq<u8>)
    requires
        parts.len() > 0,
    ensures
        join_spec(parts.push(p), sep) == join_spec(parts, sep) + sep + p,
    decreases parts.len(),
{
    if parts.len() == 1 {
        assert(parts.push(p)[0] == parts[0]);
        assert(parts.push(p).drop_first() =~= seq![p]);
        assert(join_spec(seq![p], sep) == p);
    } else {
        assert(parts.push(p).drop_first() =~= parts.drop_first().push(p));
        assert(parts.push(p)[0] == parts[0]);
        lemma_join_snoc(parts.drop_first(), sep, p);
        assert(parts[0] + sep + (join_spec(parts.drop_first(), sep) + sep + p) =~= (parts[0] + sep
            + join_spec(parts.drop_first(), sep)) + sep + p);
    }
}

/// The view of a vector of byte strings.
pub open spec fn parts_view(parts: Seq<Vec<u8>>) -> Seq<Seq<u8>> {
    parts.map_values(|p: Vec<u8>| p@)
}

/// Joins byte strings with a separator, as the prompt segments and the file
/// list are joined into one message.
#[verifier::loop_isolation(false)]
pub fn join_bytes(parts: &Vec<Vec<u8>>, sep: &Vec<u8>) -> (out: Vec<u8>)
    ensures
        out@ == join_spec(parts_view(parts@), sep@),
{
    let ghost pv = parts_view(parts@);
    let mut out: Vec<u8> = Vec::new();
    if parts.len() == 0 {
        proof {
            assert(out@ =~= join_spec(pv, sep@));
        }
        return out;
    }
    crate::accumulator::append_bytes(&mut out, &parts[0]);
    proof {
        assert(pv.take(1) =~= seq![pv[0]]);
        assert(join_spec(pv.take(1), sep@) == pv[0]);
        assert(out@ =~= pv[0]);
    }
    let mut k: usize = 1;
    while k < parts.len()
        invariant
            1 <= k <= pv.len(),
            pv.len() == parts@.len(),
            out@ == join_spec(pv.take(k as int), sep@),
        decreases pv.len() - k,
    {
        crate::accumulator::append_bytes(&mut out, sep);
        crate::accumulator::append_bytes(&mut out, &parts[k]);
        k += 1;
        proof {
            lemma_join_snoc(pv.take(k - 1), sep@, pv[k - 1]);
            assert(pv.take(k as int) =~= pv.take(k - 1).push(pv[k - 1]));
        }
    }
    proof {
        assert(pv.take(pv.len() as int) =~= pv);
    }
    out
}

/// A line with its trailing newline, then its trailing carriage return,
/// removed — the shape user input and tool output lines arrive in.
pub open spec fn trim_spec(s: Seq<u8>) -> Seq<u8> {
    let s1 = if s.len() > 0 && s[s.len() - 1] == 0x0a {
        s.take(s.len() - 1)
    } else {
        s
    };
    if s1.len() > 0 && s1[s1.len() - 1] == 0x0d {
        s1.take(s1.len() - 1)
    } else {
        s1
    }
}

/// Removes one trailing newline, then one trailing carriage return.
pub fn trim_line_ending(line: &mut Vec<u8>)
    ensures
        final(line)@ == trim_spec(old(line)@),
{
    if line.len() > 0 && line[line.len() - 1] == 0x0a {
        line.pop();
    }
    if line.len() > 0 && line[line.len() - 1] == 0x0d {
        line.pop();
    }
}

} // verus!
