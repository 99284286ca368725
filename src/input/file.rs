//! Lists of enodes, one per line, as read from a text file.

use vstd::prelude::*;

use crate::input::enode::{host_part, is_node_id_of, is_valid_enode, user_part, Enode};

verus! {

/// The texts of a list of strings.
pub open spec fn texts(lines: Seq<String>) -> Seq<Seq<char>> {
    lines.map_values(|l: String| l@)
}

/// The valid enodes of a list, in their order.
pub open spec fn valid_enodes(lines: Seq<Seq<char>>) -> Seq<Seq<char>> {
    lines.filter(|l: Seq<char>| is_valid_enode(l))
}

/// `enodes` holds the parse of each valid enode of `lines`, in order.
pub open spec fn parses_valid_enodes(lines: Seq<Seq<char>>, enodes: Seq<Enode>) -> bool {
    &&& enodes.len() == valid_enodes(lines).len()
    &&& forall|i: int|
        0 <= i < enodes.len() ==> {
            &&& is_node_id_of(user_part(valid_enodes(lines)[i]), #[trigger] enodes[i].username@)
            &&& enodes[i].hostname@ == host_part(valid_enodes(lines)[i])
        }
}

proof fn lemma_same_valid_enodes(a: Seq<Seq<char>>, b: Seq<Seq<char>>, e: Seq<Enode>)
    requires
        valid_enodes(a) == valid_enodes(b),
        parses_valid_enodes(a, e),
    ensures
        parses_valid_enodes(b, e),
{
}

/// Parses a list of enodes: the invalid ones are left out, the valid ones are
/// kept in their order.
pub fn parse_enode_lines(lines: Vec<String>) -> (r: Vec<Enode>)
    ensures
        parses_valid_enodes(texts(lines@), r@),
{
    let mut result: Vec<Enode> = Vec::new();
    let n = lines.len();
    let mut i: usize = 0;
    while i < n
        invariant
            n == lines@.len(),
            i <= n,
            parses_valid_enodes(texts(lines@).take(i as int), result@),
        decreases n - i,
    {
        let ghost seen = texts(lines@).take(i as int);
        let ghost next = texts(lines@).take(i + 1);
        proof {
            assert(next.drop_last() == seen);
            assert(next.last() == lines@[i as int]@);
            reveal(Seq::filter);
        }
        match Enode::new(lines[i].as_str()) {
            Ok(enode) => {
                let ghost before = result@;
                result.push(enode);
                proof {
                    let kept = valid_enodes(next);
                    assert(kept == valid_enodes(seen).push(lines@[i as int]@));
                    assert forall|k: int| 0 <= k < kept.len() implies {
                        &&& is_node_id_of(user_part(kept[k]), #[trigger] result@[k].username@)
                        &&& result@[k].hostname@ == host_part(kept[k])
                    } by {
                        if k < before.len() {
                            assert(result@[k] == before[k]);
                        }
                    }
                }
            },
            Err(_) => {
                assert(valid_enodes(next) == valid_enodes(seen));
                proof {
                    lemma_same_valid_enodes(seen, next, result@);
                }
            },
        }
        i = i + 1;
    }
    assert(texts(lines@).take(n as int) == texts(lines@));
    result
}

} // verus!
