//! Tokenization of canonical paths. A document's lookup keys are its path
//! components: the pieces between `/` separators, leaving out empty pieces
//! and the relative markers `.` and `..`, which never name an entry of a
//! canonical absolute path.

use vstd::prelude::*;
use vstd::string::StrSliceExecFns;

verus! {

/// A piece of a path between separators counts as a token when it is
/// nonempty and is not one of the relative markers `.` and `..`.
pub open spec fn keep_component(t: Seq<char>) -> bool {
    t.len() > 0 && t != seq!['.'] && t != seq!['.', '.']
}

/// The state of a left-to-right scan of `s`: the tokens among the
/// components that a separator has already ended, and the partial
/// component after the last separator seen so far.
pub open spec fn scan(s: Seq<char>) -> (Seq<Seq<char>>, Seq<char>)
    decreases s.len(),
{
    if s.len() == 0 {
        (Seq::empty(), Seq::empty())
    } else {
        let (done, cur) = scan(s.drop_last());
        if s.last() == '/' {
            (
                if keep_component(cur) {
                    done.push(cur)
                } else {
                    done
                },
                Seq::empty(),
            )
        } else {
            (done, cur.push(s.last()))
        }
    }
}

/// The tokens of a path: its kept components, in order of appearance.
pub open spec fn path_tokens(s: Seq<char>) -> Seq<Seq<char>> {
    let (done, cur) = scan(s);
    if keep_component(cur) {
        done.push(cur)
    } else {
        done
    }
}

/// Decides `keep_component` for one component.
fn is_kept(comp: &str) -> (r: bool)
    ensures
        r == keep_component(comp@),
{
    let n = comp.unicode_len();
    if n == 0 {
        return false;
    }
    if n == 1 && comp.get_char(0) == '.' {
        assert(comp@ =~= seq!['.']);
        return false;
    }
    if n == 2 && comp.get_char(0) == '.' && comp.get_char(1) == '.' {
        assert(comp@ =~= seq!['.', '.']);
        return false;
    }
    assert(comp@ != seq!['.']) by {
        if comp@ == seq!['.'] {
            assert(comp@.len() == 1);
            assert(comp@[0] == '.');
        }
    }
    assert(comp@ != seq!['.', '.']) by {
        if comp@ == seq!['.', '.'] {
            assert(comp@.len() == 2);
            assert(comp@[0] == '.');
            assert(comp@[1] == '.');
        }
    }
    true
}

/// Splits `p` on `/` into its tokens.
pub fn tokenize(p: &str) -> (tokens: Vec<String>)
    ensures
        tokens.deep_view() == path_tokens(p@),
{
    let len = p.unicode_len();
    let mut tokens: Vec<String> = Vec::new();
    let mut start: usize = 0;
    let mut i: usize = 0;
    while i < len
        invariant
            len == p@.len(),
            start <= i <= len,
            tokens.deep_view() == scan(p@.subrange(0, i as int)).0,
            p@.subrange(start as int, i as int) == scan(p@.subrange(0, i as int)).1,
        decreases len - i,
    {
        proof {
            assert(p@.subrange(0, i + 1).drop_last() =~= p@.subrange(0, i as int));
            assert(p@.subrange(0, i + 1).last() == p@[i as int]);
        }
        if p.get_char(i) == '/' {
            let comp = p.substring_char(start, i);
            if is_kept(comp) {
                let ghost before = tokens.deep_view();
                tokens.push(comp.to_owned());
                proof {
                    assert(tokens.deep_view() =~= before.push(comp@));
                }
            }
            start = i + 1;
            proof {
                assert(p@.subrange(start as int, i + 1) =~= Seq::<char>::empty());
            }
        } else {
            proof {
                assert(p@.subrange(start as int, i + 1) =~= p@.subrange(
                    start as int,
                    i as int,
                ).push(p@[i as int]));
            }
        }
        i += 1;
    }
    proof {
        assert(p@.subrange(0, len as int) =~= p@);
    }
    let comp = p.substring_char(start, len);
    if is_kept(comp) {
        let ghost before = tokens.deep_view();
        tokens.push(comp.to_owned());
        proof {
            assert(tokens.deep_view() =~= before.push(comp@));
        }
    }
    tokens
}

} // verus!
