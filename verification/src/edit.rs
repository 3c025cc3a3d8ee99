use vstd::prelude::*;

verus! {

/// One splice into a text: at byte `position`, remove `deleted_length`
/// bytes and put `inserted_text` in their place.
pub struct TextEdit {
    pub position: usize,
    pub deleted_length: usize,
    pub inserted_text: Vec<u8>,
}

/// A batch of edits applies left to right: each edit starts at or after
/// the end of the previous one's deleted range, and every deleted range
/// lies inside the content. `start` is where the previous edit ended.
pub open spec fn edits_wf(content: Seq<u8>, edits: Seq<TextEdit>, start: int) -> bool
    decreases edits.len(),
{
    if edits.len() == 0 {
        start <= content.len()
    } else {
        &&& start <= edits[0].position
        &&& edits[0].position + edits[0].deleted_length <= content.len()
        &&& edits_wf(content, edits.drop_first(), edits[0].position + edits[0].deleted_length)
    }
}

/// What splicing produces: the untouched text before each edit, then the
/// edit's replacement, and after the last edit the remaining tail.
pub open spec fn spliced(content: Seq<u8>, edits: Seq<TextEdit>, start: int) -> Seq<u8>
    decreases edits.len(),
{
    if edits.len() == 0 {
        content.subrange(start, content.len() as int)
    } else {
        content.subrange(start, edits[0].position as int) + edits[0].inserted_text@ + spliced(
            content,
            edits.drop_first(),
            edits[0].position + edits[0].deleted_length,
        )
    }
}

/// Apply an ordered, non-overlapping batch of edits to a byte text.
pub fn apply_edits(content: &[u8], edits: &Vec<TextEdit>) -> (r: Vec<u8>)
    requires
        edits_wf(content@, edits@, 0),
    ensures
        r@ == spliced(content@, edits@, 0),
{
    let mut out: Vec<u8> = Vec::new();
    let mut start: usize = 0;
    let n = edits.len();
    let len = content.len();
    proof {
        assert(edits@.subrange(0, n as int) =~= edits@);
    }
    for i in 0..n
        invariant
            n == edits@.len(),
            start <= content@.len() <= usize::MAX,
            edits_wf(content@, edits@.subrange(i as int, n as int), start as int),
            spliced(content@, edits@, 0) == out@ + spliced(
                content@,
                edits@.subrange(i as int, n as int),
                start as int,
            ),
    {
        let ghost rest = edits@.subrange(i as int, n as int);
        let ghost rest1 = edits@.subrange(i + 1, n as int);
        proof {
            assert(rest[0] == edits@[i as int]);
            assert(rest.drop_first() =~= rest1);
        }
        let e = &edits[i];
        let ghost pre_out = out@;
        out.extend_from_slice(&content[start..e.position]);
        out.extend_from_slice(e.inserted_text.as_slice());
        proof {
            assert(out@ =~= pre_out + content@.subrange(
                start as int,
                e.position as int,
            ) + e.inserted_text@);
            assert(pre_out + spliced(content@, rest, start as int) =~= out@ + spliced(
                content@,
                rest1,
                e.position + e.deleted_length,
            ));
        }
        start = e.position + e.deleted_length;
    }
    let ghost pre_out = out@;
    out.extend_from_slice(&content[start..len]);
    proof {
        assert(edits@.subrange(n as int, n as int).len() == 0);
        assert(out@ =~= pre_out + content@.subrange(start as int, content@.len() as int));
    }
    out
}

} // verus!
