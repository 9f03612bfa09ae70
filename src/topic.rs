use vstd::prelude::*;

verus! {

/// The segments written one after another, `sep` between each two.
pub open spec fn join_spec(segs: Seq<Seq<char>>, sep: char) -> Seq<char>
    decreases segs.len(),
{
    if segs.len() == 0 {
        Seq::empty()
    } else if segs.len() == 1 {
        segs[0]
    } else {
        join_spec(segs.drop_last(), sep) + seq![sep] + segs.last()
    }
}

/// No segment holds the separator.
pub open spec fn separator_free(segs: Seq<Seq<char>>, sep: char) -> bool {
    forall|k: int| 0 <= k < segs.len() ==> !(#[trigger] segs[k]).contains(sep)
}

/// The pieces of `s` between occurrences of `sep`, in order (at least one).
pub open spec fn is_split_of(segs: Seq<Seq<char>>, s: Seq<char>, sep: char) -> bool {
    &&& segs.len() >= 1
    &&& join_spec(segs, sep) == s
    &&& separator_free(segs, sep)
}

proof fn lemma_join_push(segs: Seq<Seq<char>>, p: Seq<char>, sep: char)
    requires
        segs.len() >= 1,
    ensures
        join_spec(segs.push(p), sep) == join_spec(segs, sep) + seq![sep] + p,
{
    assert(segs.push(p).drop_last() =~= segs);
}

proof fn lemma_last_piece(x: Seq<char>, p: Seq<char>, y: Seq<char>, q: Seq<char>, sep: char)
    requires
        x + seq![sep] + p == y + seq![sep] + q,
        !p.contains(sep),
        !q.contains(sep),
    ensures
        p == q,
        x == y,
{
    let s = x + seq![sep] + p;
    let n = s.len() as int;
    if p.len() < q.len() {
        let i = n - p.len() - 1;
        assert(s[i] == sep);
        assert(q[i - (n - q.len())] == s[i]);
        assert(q.contains(sep));
    } else if q.len() < p.len() {
        let i = n - q.len() - 1;
        assert((y + seq![sep] + q)[i] == sep);
        assert(p[i - (n - p.len())] == s[i]);
        assert(p.contains(sep));
    }
    assert(p =~= s.subrange(n - p.len(), n));
    assert(q =~= s.subrange(n - q.len(), n));
    assert(x =~= s.subrange(0, x.len() as int));
    assert(y =~= s.subrange(0, y.len() as int));
}

proof fn lemma_joined_holds_separator(segs: Seq<Seq<char>>, sep: char)
    requires
        segs.len() > 1,
    ensures
        join_spec(segs, sep).contains(sep),
{
    let x = join_spec(segs.drop_last(), sep);
    assert((x + seq![sep] + segs.last())[x.len() as int] == sep);
}

/// A text has exactly one split at a given separator.
pub proof fn split_is_unique(a: Seq<Seq<char>>, b: Seq<Seq<char>>, s: Seq<char>, sep: char)
    requires
        is_split_of(a, s, sep),
        is_split_of(b, s, sep),
    ensures
        a == b,
    decreases a.len() + b.len(),
{
    if a.len() == 1 && b.len() == 1 {
        assert(a =~= b);
    } else if a.len() == 1 {
        lemma_joined_holds_separator(b, sep);
        assert(!a[0].contains(sep));
    } else if b.len() == 1 {
        lemma_joined_holds_separator(a, sep);
        assert(!b[0].contains(sep));
    } else {
        assert(!a.last().contains(sep));
        assert(!b.last().contains(sep));
        lemma_last_piece(
            join_spec(a.drop_last(), sep),
            a.last(),
            join_spec(b.drop_last(), sep),
            b.last(),
            sep,
        );
        let x = join_spec(a.drop_last(), sep);
        assert(separator_free(a.drop_last(), sep));
        assert(separator_free(b.drop_last(), sep));
        split_is_unique(a.drop_last(), b.drop_last(), x, sep);
        assert(a =~= a.drop_last().push(a.last()));
        assert(b =~= b.drop_last().push(b.last()));
    }
}

/// Splits `s` at every `sep` character, keeping empty pieces.
pub fn split_on(s: &str, sep: char) -> (r: Vec<String>)
    ensures
        is_split_of(r.deep_view(), s@, sep),
{
    let n = s.unicode_len();
    let mut r: Vec<String> = Vec::new();
    let mut start: usize = 0;
    let mut i: usize = 0;
    while i < n
        invariant
            n == s@.len(),
            start <= i <= n,
            separator_free(r.deep_view(), sep),
            !s@.subrange(start as int, i as int).contains(sep),
            r.len() == 0 ==> start == 0,
            r.len() > 0 ==> join_spec(r.deep_view(), sep) + seq![sep] == s@.subrange(0, start as int),
        decreases n - i,
    {
        let c = s.get_char(i);
        if c == sep {
            let piece = String::from_str(s.substring_char(start, i));
            proof {
                let old_r = r.deep_view();
                let p = s@.subrange(start as int, i as int);
                if old_r.len() > 0 {
                    lemma_join_push(old_r, p, sep);
                } else {
                    assert(old_r.push(p) =~= seq![p]);
                }
                assert(s@.subrange(0, i as int + 1) =~= s@.subrange(0, start as int) + p + seq![sep]);
                assert(s@.subrange(0, i as int) =~= s@.subrange(0, start as int) + p);
            }
            let ghost prev = r.deep_view();
            r.push(piece);
            proof {
                assert(r.deep_view() =~= prev.push(s@.subrange(start as int, i as int)));
            }
            start = i + 1;
        } else {
            proof {
                assert(s@.subrange(start as int, i as int + 1) =~= s@.subrange(start as int, i as int).push(c));
            }
        }
        i = i + 1;
    }
    let piece = String::from_str(s.substring_char(start, n));
    proof {
        let old_r = r.deep_view();
        let p = s@.subrange(start as int, n as int);
        if old_r.len() > 0 {
            lemma_join_push(old_r, p, sep);
            assert(s@ =~= s@.subrange(0, start as int) + p);
        } else {
            assert(old_r.push(p) =~= seq![p]);
            assert(s@ =~= p);
        }
    }
    let ghost prev = r.deep_view();
    r.push(piece);
    proof {
        assert(r.deep_view() =~= prev.push(s@.subrange(start as int, n as int)));
    }
    r
}

/// The single-level wildcard segment `+`.
pub open spec fn is_single_wildcard(seg: Seq<char>) -> bool {
    seg == seq!['+']
}

/// The multi-level wildcard segment `#`.
pub open spec fn is_multi_wildcard(seg: Seq<char>) -> bool {
    seg == seq!['#']
}

/// Matches `candidate` against `pattern`: `None` on a mismatch, else the
/// trailing segments of the candidate absorbed by a multi-level wildcard.
pub open spec fn accepts_spec(pattern: Seq<Seq<char>>, candidate: Seq<Seq<char>>) -> Option<
    Seq<Seq<char>>,
>
    decreases pattern.len(),
{
    if pattern.len() == 0 {
        if candidate.len() == 0 {
            Some(Seq::empty())
        } else {
            None
        }
    } else if is_multi_wildcard(pattern[0]) {
        Some(candidate)
    } else if candidate.len() == 0 {
        None
    } else if is_single_wildcard(pattern[0]) || pattern[0] == candidate[0] {
        accepts_spec(pattern.drop_first(), candidate.drop_first())
    } else {
        None
    }
}

/// A topic, or a topic pattern: the segments of its `/`-separated text.
#[derive(Clone, Debug)]
pub struct Topic {
    pub path: Vec<String>,
}

impl View for Topic {
    type V = Seq<Seq<char>>;

    open spec fn view(&self) -> Seq<Seq<char>> {
        self.path.deep_view()
    }
}

/// Outcome of matching a candidate topic against a pattern.
#[derive(Debug)]
pub enum TopicCompare {
    Mismatch,
    Match { additional_path: Vec<String> },
}

impl TopicCompare {
    /// `None` for a mismatch, else the absorbed segments.
    pub open spec fn outcome(&self) -> Option<Seq<Seq<char>>> {
        match self {
            TopicCompare::Mismatch => None,
            TopicCompare::Match { additional_path } => Some(additional_path.deep_view()),
        }
    }
}

pub(crate) fn is_one_char(s: &String, c: char) -> (r: bool)
    ensures
        r == (s@ == seq![c]),
{
    let t = s.as_str();
    if t.unicode_len() == 1 {
        let d = t.get_char(0);
        proof {
            if d == c {
                assert(s@ =~= seq![c]);
            }
        }
        d == c
    } else {
        false
    }
}

/// Copies the segments `v[from..]`.
fn tail_of(v: &Vec<String>, from: usize) -> (r: Vec<String>)
    requires
        from <= v.len(),
    ensures
        r.deep_view() == v.deep_view().subrange(from as int, v.len() as int),
{
    let mut r: Vec<String> = Vec::new();
    let mut j: usize = from;
    while j < v.len()
        invariant
            from <= j <= v.len(),
            r.deep_view() == v.deep_view().subrange(from as int, j as int),
        decreases v.len() - j,
    {
        let ghost prev = r.deep_view();
        r.push(v[j].clone());
        proof {
            assert(r.deep_view() =~= prev.push(v.deep_view()[j as int]));
            assert(r.deep_view() =~= v.deep_view().subrange(from as int, j as int + 1));
        }
        j = j + 1;
    }
    r
}

impl Topic {
    /// The segments of `s` between `/` characters.
    pub fn from(s: &str) -> (r: Topic)
        ensures
            is_split_of(r@, s@, '/'),
    {
        Topic { path: split_on(s, '/') }
    }

    /// The segments joined with `/`.
    pub fn to_string(&self) -> (r: String)
        ensures
            r@ == join_spec(self@, '/'),
    {
        let mut r = String::new();
        let mut i: usize = 0;
        while i < self.path.len()
            invariant
                i <= self.path.len(),
                r@ == join_spec(self@.subrange(0, i as int), '/'),
            decreases self.path.len() - i,
        {
            proof {
                reveal_strlit("/");
                let p = self@.subrange(0, i as int + 1);
                assert(p.drop_last() =~= self@.subrange(0, i as int));
                if i == 0 {
                    assert(p =~= seq![self@[0]]);
                }
            }
            if i > 0 {
                r.append("/");
            }
            r.append(self.path[i].as_str());
            i = i + 1;
        }
        proof {
            assert(self@.subrange(0, i as int) =~= self@);
        }
        r
    }

    /// Matches `other` against this pattern, segment by segment.
    pub fn accepts(&self, other: &Self) -> (r: TopicCompare)
        ensures
            r.outcome() == accepts_spec(self@, other@),
    {
        let n = self.path.len();
        let mut i: usize = 0;
        proof {
            assert(self@.subrange(0, n as int) =~= self@);
            assert(other@.subrange(0, other@.len() as int) =~= other@);
        }
        while i < n
            invariant
                n == self@.len(),
                i <= n,
                accepts_spec(self@, other@) == accepts_spec(
                    self@.subrange(i as int, n as int),
                    other@.subrange(i as int, other@.len() as int),
                ),
                i <= other@.len(),
            decreases n - i,
        {
            let ghost p = self@.subrange(i as int, n as int);
            let ghost c = other@.subrange(i as int, other@.len() as int);
            if is_one_char(&self.path[i], '#') {
                return TopicCompare::Match { additional_path: tail_of(&other.path, i) };
            }
            if i >= other.path.len() {
                return TopicCompare::Mismatch;
            }
            if !is_one_char(&self.path[i], '+') && self.path[i] != other.path[i] {
                return TopicCompare::Mismatch;
            }
            proof {
                assert(p.drop_first() =~= self@.subrange(i as int + 1, n as int));
                assert(c.drop_first() =~= other@.subrange(i as int + 1, other@.len() as int));
            }
            i = i + 1;
        }
        if self.path.len() == other.path.len() {
            TopicCompare::Match { additional_path: Vec::new() }
        } else {
            TopicCompare::Mismatch
        }
    }
}

} // verus!
