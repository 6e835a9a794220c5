//! Slash-separated task paths, `/db` or `/db/check_0`.

use crate::text::{to_chars, from_chars};
use vstd::prelude::*;

verus! {

/// A leading slash, no empty segment; a lone slash is the root.
pub open spec fn valid_path(s: Seq<char>) -> bool {
    &&& s.len() > 0
    &&& s[0] == '/'
    &&& s.len() > 1 ==> s.last() != '/'
    &&& forall|i: int, j: int|
        #![trigger s[i], s[j]]
        0 <= i && j == i + 1 && j < s.len() ==> !(s[i] == '/' && s[j] == '/')
}

/// The position of the last slash, or -1.
pub open spec fn last_slash(s: Seq<char>) -> int
    decreases s.len(),
{
    if s.len() == 0 {
        -1
    } else if s.last() == '/' {
        s.len() - 1
    } else {
        last_slash(s.drop_last())
    }
}

/// The last segment.
pub open spec fn path_name(s: Seq<char>) -> Seq<char> {
    s.skip(last_slash(s) + 1)
}

pub open spec fn slashes(s: Seq<char>) -> nat
    decreases s.len(),
{
    if s.len() == 0 {
        0
    } else if s.last() == '/' {
        slashes(s.drop_last()) + 1
    } else {
        slashes(s.drop_last())
    }
}

/// The number of segments.
pub open spec fn path_depth(s: Seq<char>) -> nat {
    if s.len() <= 1 {
        0
    } else {
        slashes(s)
    }
}

/// The path without its last segment; nothing for a path of one segment.
pub open spec fn path_parent(s: Seq<char>) -> Option<Seq<char>> {
    if last_slash(s) > 0 {
        Some(s.take(last_slash(s)))
    } else {
        None
    }
}

/// A segment that can stand in a path.
pub open spec fn valid_segment(s: Seq<char>) -> bool {
    s.len() > 0 && !s.contains('/')
}

proof fn lemma_last_slash(s: Seq<char>)
    ensures
        -1 <= last_slash(s) < s.len(),
        last_slash(s) >= 0 ==> s[last_slash(s)] == '/',
        forall|i: int| last_slash(s) < i < s.len() ==> s[i] != '/',
    decreases s.len(),
{
    if s.len() > 0 && s.last() != '/' {
        let t = s.drop_last();
        lemma_last_slash(t);
        assert forall|i: int| last_slash(s) < i < s.len() implies s[i] != '/' by {
            if i < t.len() {
                assert(t[i] == s[i]);
            }
        }
    }
}

proof fn lemma_append_segment(p: Seq<char>, seg: Seq<char>)
    requires
        !seg.contains('/'),
    ensures
        last_slash(p + seg) == last_slash(p),
        slashes(p + seg) == slashes(p),
    decreases seg.len(),
{
    if seg.len() > 0 {
        let t = seg.drop_last();
        assert forall|i: int| 0 <= i < t.len() implies t[i] != '/' by {
            assert(seg[i] == t[i]);
            if seg[i] == '/' {
                assert(seg.contains('/'));
            }
        }
        lemma_append_segment(p, t);
        assert((p + seg).drop_last() =~= p + t);
        assert((p + seg).last() == seg.last());
        assert(seg.contains(seg.last()));
    } else {
        assert(p + seg =~= p);
    }
}

/// Joining a segment to a path gives a path that has the segment as its name
/// and the path as its parent, one deeper.
pub proof fn joined_path(p: Seq<char>, seg: Seq<char>)
    requires
        valid_path(p),
        p.len() > 1,
        valid_segment(seg),
    ensures
        valid_path(p.push('/') + seg),
        path_name(p.push('/') + seg) == seg,
        path_parent(p.push('/') + seg) == Some(p),
        path_depth(p.push('/') + seg) == path_depth(p) + 1,
{
    let q = p.push('/') + seg;
    lemma_append_segment(p.push('/'), seg);
    assert(p.push('/').drop_last() =~= p);
    assert(last_slash(p.push('/')) == p.len());
    assert forall|i: int| 0 <= i < seg.len() implies seg[i] != '/' by {
        assert(seg.contains(seg[i]));
    }
    assert(q.last() == seg.last());
    assert forall|i: int, j: int|
        #![trigger q[i], q[j]]
        0 <= i && j == i + 1 && j < q.len() implies !(q[i] == '/' && q[j] == '/') by {
        if j < p.len() {
            assert(q[i] == p[i] && q[j] == p[j]);
        } else if j == p.len() {
            assert(q[i] == p.last());
        } else {
            assert(q[j] == seg[j - p.len() - 1]);
        }
    }
    assert(q.skip(p.len() as int + 1) =~= seg);
    assert(q.take(p.len() as int) =~= p);
}

/// A segment on its own, behind a slash, is a path of depth one.
pub proof fn top_level_path(seg: Seq<char>)
    requires
        valid_segment(seg),
    ensures
        valid_path(seq!['/'] + seg),
        path_name(seq!['/'] + seg) == seg,
        path_parent(seq!['/'] + seg) is None,
        path_depth(seq!['/'] + seg) == 1,
{
    let q = seq!['/'] + seg;
    lemma_append_segment(seq!['/'], seg);
    assert(seq!['/'].drop_last() =~= Seq::empty());
    assert(last_slash(seq!['/']) == 0);
    assert(slashes(seq!['/']) == 1) by {
        assert(slashes(Seq::<char>::empty()) == 0);
    }
    assert forall|i: int| 0 <= i < seg.len() implies seg[i] != '/' by {
        assert(seg.contains(seg[i]));
    }
    assert(q.last() == seg.last());
    assert(q.skip(1) =~= seg);
    assert forall|i: int, j: int|
        #![trigger q[i], q[j]]
        0 <= i && j == i + 1 && j < q.len() implies !(q[i] == '/' && q[j] == '/') by {
        assert(q[j] == seg[j - 1]);
    }
}

/// The path of a task.
#[derive(Debug)]
pub struct TaskPath {
    text: String,
}

impl View for TaskPath {
    type V = Seq<char>;

    closed spec fn view(&self) -> Seq<char> {
        self.text@
    }
}

impl Clone for TaskPath {
    fn clone(&self) -> (r: Self)
        ensures
            r == *self,
    {
        proof {
            use_type_invariant(self);
        }
        TaskPath { text: self.text.clone() }
    }
}

impl TaskPath {
    #[verifier::type_invariant]
    spec fn well_formed(&self) -> bool {
        valid_path(self.text@)
    }

    /// Reads a path; nothing for a text that is none.
    pub fn new(text: String) -> (r: Option<Self>)
        ensures
            r is Some <==> valid_path(text@),
            r matches Some(p) ==> p@ == text@,
    {
        let cs = to_chars(text.as_str());
        if cs.len() == 0 || cs[0] != '/' {
            return None;
        }
        if cs.len() > 1 && cs[cs.len() - 1] == '/' {
            return None;
        }
        let mut i: usize = 1;
        while i < cs.len()
            invariant
                cs@ == text@,
                1 <= i <= cs@.len(),
                forall|a: int, b: int|
                    #![trigger cs@[a], cs@[b]]
                    0 <= a && b == a + 1 && b < i ==> !(cs@[a] == '/' && cs@[b] == '/'),
            decreases cs@.len() - i,
        {
            if cs[i - 1] == '/' && cs[i] == '/' {
                proof {
                    assert(text@[i - 1] == '/' && text@[i as int] == '/');
                }
                return None;
            }
            i += 1;
        }
        Some(TaskPath { text })
    }

    pub fn as_str(&self) -> (r: &str)
        ensures
            r@ == self@,
            valid_path(self@),
    {
        proof {
            use_type_invariant(self);
        }
        self.text.as_str()
    }

    fn slash(cs: &Vec<char>) -> (r: usize)
        requires
            valid_path(cs@),
        ensures
            r == last_slash(cs@),
            r < cs@.len(),
    {
        let mut i: usize = cs.len() - 1;
        proof {
            assert(cs@.take(i + 1) =~= cs@);
        }
        while cs[i] != '/'
            invariant
                i < cs@.len(),
                cs@[0] == '/',
                last_slash(cs@.take(i + 1)) == last_slash(cs@),
            decreases i,
        {
            proof {
                assert(cs@.take(i + 1).drop_last() =~= cs@.take(i as int));
                assert(cs@.take(i + 1).last() == cs@[i as int]);
            }
            i -= 1;
        }
        proof {
            assert(cs@.take(i + 1).last() == cs@[i as int]);
        }
        i
    }

    /// The last segment.
    pub fn name(&self) -> (r: String)
        ensures
            r@ == path_name(self@),
    {
        proof {
            use_type_invariant(self);
        }
        let cs = to_chars(self.text.as_str());
        let k = Self::slash(&cs);
        proof {
            assert(cs@.subrange(k + 1, cs@.len() as int) =~= cs@.skip(k + 1));
        }
        from_chars(&cs, k + 1, cs.len())
    }

    /// The number of segments.
    pub fn depth(&self) -> (r: usize)
        ensures
            r == path_depth(self@),
    {
        proof {
            use_type_invariant(self);
        }
        let cs = to_chars(self.text.as_str());
        if cs.len() <= 1 {
            return 0;
        }
        let mut n: usize = 0;
        let mut i: usize = 0;
        while i < cs.len()
            invariant
                i <= cs@.len(),
                n <= i,
                n == slashes(cs@.take(i as int)),
            decreases cs@.len() - i,
        {
            proof {
                assert(cs@.take(i + 1).drop_last() =~= cs@.take(i as int));
            }
            if cs[i] == '/' {
                n += 1;
            }
            i += 1;
        }
        proof {
            assert(cs@.take(i as int) =~= cs@);
        }
        n
    }

    /// The path without its last segment.
    pub fn parent(&self) -> (r: Option<TaskPath>)
        ensures
            match r {
                Some(p) => path_parent(self@) == Some(p@),
                None => path_parent(self@) is None,
            },
    {
        proof {
            use_type_invariant(self);
        }
        let cs = to_chars(self.text.as_str());
        let k = Self::slash(&cs);
        if k == 0 {
            return None;
        }
        proof {
            lemma_last_slash(cs@);
            assert(cs@.subrange(0, k as int) =~= cs@.take(k as int));
            if cs@.take(k as int).len() > 1 {
                assert(cs@[k - 1] != '/' || cs@[k as int] != '/');
            }
        }
        let text = from_chars(&cs, 0, k);
        proof {
            assert forall|a: int, b: int|
                #![trigger text@[a], text@[b]]
                0 <= a && b == a + 1 && b < text@.len() implies !(text@[a] == '/' && text@[b]
                == '/') by {
                assert(text@[a] == cs@[a] && text@[b] == cs@[b]);
            }
        }
        Some(TaskPath { text })
    }
}

/// A path, by its characters.
pub open spec fn path_view(path: Option<TaskPath>) -> Option<Seq<char>> {
    match path {
        Some(p) => Some(p@),
        None => None,
    }
}

/// Whether two paths are the same.
pub fn same_path(a: &TaskPath, b: &TaskPath) -> (r: bool)
    ensures
        r == (a@ == b@),
{
    crate::text::str_eq(a.as_str(), b.as_str())
}

/// `name` with slashes replaced, so that it can stand in a path.
pub open spec fn as_component(name: Seq<char>) -> Seq<char> {
    if name.len() == 0 {
        seq!['_']
    } else {
        name.map_values(
            |c: char|
                if c == '/' {
                    '_'
                } else {
                    c
                },
        )
    }
}

/// Makes a path segment of a process name: slashes become underscores, an
/// empty name becomes a lone underscore.
pub fn sanitize_component(name: &str) -> (r: String)
    ensures
        r@ == as_component(name@),
        valid_segment(r@),
{
    let cs = to_chars(name);
    let mut out = String::new();
    let mut i: usize = 0;
    while i < cs.len()
        invariant
            i <= cs@.len(),
            out@.len() == i,
            forall|k: int|
                0 <= k < i ==> #[trigger] out@[k] == (if cs@[k] == '/' {
                    '_'
                } else {
                    cs@[k]
                }),
        decreases cs@.len() - i,
    {
        let c = cs[i];
        out.push(
            if c == '/' {
                '_'
            } else {
                c
            },
        );
        i += 1;
    }
    if cs.len() == 0 {
        out.push('_');
    }
    proof {
        assert(out@ =~= as_component(name@));
        assert forall|k: int| 0 <= k < out@.len() implies out@[k] != '/' by {
            if cs@.len() > 0 {
                assert(out@[k] == (if cs@[k] == '/' {
                    '_'
                } else {
                    cs@[k]
                }));
            }
        }
    }
    out
}

} // verus!
