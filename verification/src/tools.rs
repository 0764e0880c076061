//! The tool catalogue's side of tool search: the text each tool is
//! embedded from, the query text, and the ranking of tools by score.

use vstd::prelude::*;

verus! {

/// One argument of a tool.
#[derive(Debug)]
pub struct Argument {
    pub arg_type: String,
    pub description: String,
}

/// A tool of the catalogue. `arguments` lists each argument under its
/// name, in the order the catalogue's argument map is walked.
#[derive(Debug)]
pub struct Tool {
    pub name: String,
    pub description: String,
    pub arguments: Vec<(String, Argument)>,
    pub examples: Vec<String>,
}

/// The line that describes one argument.
pub open spec fn argument_line(name: Seq<char>, arg: Argument) -> Seq<char> {
    "- "@ + name + " ("@ + arg.arg_type@ + "): "@ + arg.description@ + "\n"@
}

/// The lines that describe `args`, in order.
pub open spec fn argument_lines(args: Seq<(String, Argument)>) -> Seq<char>
    decreases args.len(),
{
    if args.len() == 0 {
        Seq::empty()
    } else {
        argument_lines(args.drop_last()) + argument_line(args.last().0@, args.last().1)
    }
}

/// One line per example, in order.
pub open spec fn example_lines(examples: Seq<String>) -> Seq<char>
    decreases examples.len(),
{
    if examples.len() == 0 {
        Seq::empty()
    } else {
        example_lines(examples.drop_last()) + "- "@ + examples.last()@ + "\n"@
    }
}

/// The text that a tool is embedded from: its name, description,
/// arguments and examples.
pub open spec fn embedding_text(tool: Tool) -> Seq<char> {
    "Tool name: "@ + tool.name@ + "\n"@ + "Description: "@ + tool.description@ + "\n"@
        + "Arguments:\n"@ + argument_lines(tool.arguments@) + "Examples:\n"@ + example_lines(
        tool.examples@,
    )
}

/// Builds the text that `tool` is embedded from.
pub fn build_embedding_text(tool: &Tool) -> (text: String)
    ensures
        text@ == embedding_text(*tool),
{
    let mut text = String::new();
    text.append("Tool name: ");
    text.append(tool.name.as_str());
    text.append("\n");
    text.append("Description: ");
    text.append(tool.description.as_str());
    text.append("\n");
    text.append("Arguments:\n");
    let ghost head = text@;
    let mut i: usize = 0;
    while i < tool.arguments.len()
        invariant
            i <= tool.arguments@.len(),
            text@ == head + argument_lines(tool.arguments@.take(i as int)),
        decreases tool.arguments.len() - i,
    {
        let (name, arg) = &tool.arguments[i];
        text.append("- ");
        text.append(name.as_str());
        text.append(" (");
        text.append(arg.arg_type.as_str());
        text.append("): ");
        text.append(arg.description.as_str());
        text.append("\n");
        proof {
            let t = tool.arguments@.take(i + 1);
            assert(t.drop_last() =~= tool.arguments@.take(i as int));
            assert(text@ =~= head + argument_lines(t));
        }
        i = i + 1;
    }
    assert(tool.arguments@.take(tool.arguments@.len() as int) =~= tool.arguments@);
    text.append("Examples:\n");
    let ghost head2 = text@;
    let mut j: usize = 0;
    while j < tool.examples.len()
        invariant
            j <= tool.examples@.len(),
            text@ == head2 + example_lines(tool.examples@.take(j as int)),
        decreases tool.examples.len() - j,
    {
        text.append("- ");
        text.append(tool.examples[j].as_str());
        text.append("\n");
        proof {
            let t = tool.examples@.take(j + 1);
            assert(t.drop_last() =~= tool.examples@.take(j as int));
            assert(text@ =~= head2 + example_lines(t));
        }
        j = j + 1;
    }
    assert(tool.examples@.take(tool.examples@.len() as int) =~= tool.examples@);
    assert(text@ =~= embedding_text(*tool));
    text
}

/// The search query for a user's message: the retrieval instruction that
/// the embedding model expects, then the message.
pub open spec fn query_text(user_input: Seq<char>) -> Seq<char> {
    "Represent this sentence for searching relevant passages: "@ + user_input
}

/// Builds the search query for a user's message.
pub fn build_query(user_input: &str) -> (q: String)
    ensures
        q@ == query_text(user_input@),
{
    String::from_str("Represent this sentence for searching relevant passages: ").concat(user_input)
}


/// Item `a` comes before item `b` when items are sorted by descending key
/// with a stable sort: a higher key, or the same key and an earlier place.
pub open spec fn ranks_before(keys: Seq<u32>, a: int, b: int) -> bool {
    keys[a] > keys[b] || (keys[a] == keys[b] && a < b)
}

/// `r` lists, first to last, the first `min(n, keys.len())` items of the
/// stable sort of all items by descending key.
pub open spec fn is_top_n(keys: Seq<u32>, n: nat, r: Seq<usize>) -> bool {
    &&& r.len() == if n < keys.len() { n } else { keys.len() }
    &&& forall|i: int| 0 <= i < r.len() ==> #[trigger] r[i] < keys.len()
    &&& forall|i: int, j: int|
        0 <= i < j < r.len() ==> ranks_before(keys, #[trigger] r[i] as int, #[trigger] r[j] as int)
    &&& forall|i: int, x: int|
        0 <= i < r.len() && 0 <= x < keys.len() && !r.contains(x as usize) ==> #[trigger] ranks_before(
            keys,
            r[i] as int,
            x,
        )
}

/// The places of the `n` best items by key (all of them when there are
/// fewer), best first; items with equal keys keep their order.
pub fn top_n_indices(keys: &Vec<u32>, n: usize) -> (r: Vec<usize>)
    ensures
        is_top_n(keys@, n as nat, r@),
{
    let len = keys.len();
    let mut order: Vec<usize> = Vec::new();
    let mut x: usize = 0;
    while x < len
        invariant
            len == keys@.len(),
            x <= len,
            order@.len() == x,
            forall|i: int| 0 <= i < order@.len() ==> #[trigger] order@[i] < x,
            forall|y: int| 0 <= y < x ==> #[trigger] order@.contains(y as usize),
            forall|i: int, j: int|
                0 <= i < j < order@.len() ==> ranks_before(
                    keys@,
                    #[trigger] order@[i] as int,
                    #[trigger] order@[j] as int,
                ),
        decreases len - x,
    {
        let mut p: usize = 0;
        while p < order.len() && keys[order[p]] >= keys[x]
            invariant
                len == keys@.len(),
                x < len,
                p <= order@.len(),
                forall|i: int| 0 <= i < order@.len() ==> #[trigger] order@[i] < x,
                forall|i: int| 0 <= i < p ==> keys@[#[trigger] order@[i] as int] >= keys@[x as int],
            decreases order.len() - p,
        {
            p = p + 1;
        }
        let ghost old_order = order@;
        proof {
            assert forall|j: int| p <= j < old_order.len() implies keys@[#[trigger] old_order[j] as int]
                < keys@[x as int] by {
                if j > p {
                    assert(ranks_before(keys@, old_order[p as int] as int, old_order[j] as int));
                }
            }
        }
        order.insert(p, x);
        proof {
            assert forall|i: int, j: int| 0 <= i < j < order@.len() implies ranks_before(
                keys@,
                #[trigger] order@[i] as int,
                #[trigger] order@[j] as int,
            ) by {
                if j < p {
                    assert(ranks_before(keys@, old_order[i] as int, old_order[j] as int));
                } else if j == p {
                    assert(order@[i] == old_order[i]);
                } else if i < p {
                    assert(ranks_before(keys@, old_order[i] as int, old_order[j - 1] as int));
                } else if i == p {
                    assert(order@[j] == old_order[j - 1]);
                } else {
                    assert(ranks_before(keys@, old_order[i - 1] as int, old_order[j - 1] as int));
                }
            }
            assert forall|y: int| 0 <= y < x + 1 implies #[trigger] order@.contains(y as usize) by {
                if y == x {
                    assert(order@[p as int] == x);
                } else {
                    assert(old_order.contains(y as usize));
                    let k = choose|k: int| 0 <= k < old_order.len() && old_order[k] == y as usize;
                    if k < p {
                        assert(order@[k] == y as usize);
                    } else {
                        assert(order@[k + 1] == y as usize);
                    }
                }
            }
            assert forall|i: int| 0 <= i < order@.len() implies #[trigger] order@[i] < x + 1 by {
                if i < p {
                    assert(order@[i] == old_order[i]);
                } else if i > p {
                    assert(order@[i] == old_order[i - 1]);
                }
            }
        }
        x = x + 1;
    }
    let count = if n < len { n } else { len };
    let mut r: Vec<usize> = Vec::new();
    let mut i: usize = 0;
    while i < count
        invariant
            count <= order@.len(),
            count == if n < keys@.len() { n as int } else { keys@.len() as int },
            order@.len() == keys@.len(),
            forall|i: int| 0 <= i < order@.len() ==> #[trigger] order@[i] < keys@.len(),
            forall|y: int| 0 <= y < keys@.len() ==> #[trigger] order@.contains(y as usize),
            forall|i: int, j: int|
                0 <= i < j < order@.len() ==> ranks_before(
                    keys@,
                    #[trigger] order@[i] as int,
                    #[trigger] order@[j] as int,
                ),
            i <= count,
            r@ == order@.take(i as int),
        decreases count - i,
    {
        r.push(order[i]);
        assert(r@ =~= order@.take(i + 1));
        i = i + 1;
    }
    proof {
        assert forall|i: int, y: int|
            0 <= i < r@.len() && 0 <= y < keys@.len() && !r@.contains(y as usize) implies #[trigger] ranks_before(
            keys@,
            r@[i] as int,
            y,
        ) by {
            assert(order@.contains(y as usize));
            let q = choose|q: int| 0 <= q < order@.len() && order@[q] == y as usize;
            if q < count {
                assert(r@[q] == y as usize);
            }
            assert(ranks_before(keys@, order@[i] as int, order@[q] as int));
        }
    }
    r
}

} // verus!
