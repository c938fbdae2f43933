//! Paths below a directory that the caller knows, as the names that lead from
//! it to the place meant.

use vstd::prelude::*;

verus! {

/// A path relative to a base directory: the names of the directories passed
/// on the way down, the outermost first. The empty path is the base itself.
pub struct RelPath {
    pub parts: Vec<String>,
}

impl View for RelPath {
    type V = Seq<Seq<char>>;

    open spec fn view(&self) -> Seq<Seq<char>> {
        self.parts@.map_values(|name: String| name@)
    }
}

/// The names of a path written one after the other with `/` between them.
pub open spec fn joined(path: Seq<Seq<char>>) -> Seq<char>
    decreases path.len(),
{
    if path.len() == 0 {
        Seq::empty()
    } else if path.len() == 1 {
        path[0]
    } else {
        joined(path.drop_last()) + seq!['/'] + path.last()
    }
}

/// What the ignore rules are asked about a directory: its path followed by
/// the separator, so that rules written for directories apply to it.
pub open spec fn query_text(path: Seq<Seq<char>>) -> Seq<char> {
    joined(path) + seq!['/']
}

/// Whether `short` leads to a place that `long` lies strictly below.
pub open spec fn strictly_above(short: Seq<Seq<char>>, long: Seq<Seq<char>>) -> bool {
    short.len() < long.len() && long.subrange(0, short.len() as int) == short
}

impl RelPath {
    /// The base directory itself.
    pub fn base() -> (path: RelPath)
        ensures
            path@ == Seq::<Seq<char>>::empty(),
    {
        let path = RelPath { parts: Vec::new() };
        assert(path@ =~= Seq::<Seq<char>>::empty());
        path
    }

    /// How many names the path holds.
    pub fn depth(&self) -> (n: usize)
        ensures
            n == self@.len(),
    {
        self.parts.len()
    }

    /// The last name of the path, if it has one.
    pub fn file_name(&self) -> (name: Option<&str>)
        ensures
            self@.len() == 0 ==> name is None,
            self@.len() > 0 ==> name is Some && name->0@ == self@.last(),
    {
        let n: usize = self.parts.len();
        if n == 0 {
            None
        } else {
            Some(self.parts[n - 1].as_str())
        }
    }

    /// The path one name further down.
    pub fn child(&self, name: &str) -> (path: RelPath)
        ensures
            path@ == self@.push(name@),
    {
        let mut path = self.clone();
        path.parts.push(name.to_owned());
        assert(path@ =~= self@.push(name@));
        path
    }

    /// The names joined by `/`, as the path is shown to a reader.
    pub fn display(&self) -> (text: String)
        ensures
            text@ == joined(self@),
    {
        let mut text = String::new();
        let mut i: usize = 0;
        while i < self.parts.len()
            invariant
                i <= self.parts.len(),
                text@ == joined(self@.take(i as int)),
            decreases self.parts.len() - i,
        {
            proof {
                reveal_strlit("/");
                assert(self@.take(i + 1).drop_last() =~= self@.take(i as int));
                assert(self@.take(i + 1).last() == self.parts@[i as int]@);
            }
            if i > 0 {
                text.append("/");
            }
            text.append(self.parts[i].as_str());
            i += 1;
        }
        assert(self@.take(self@.len() as int) =~= self@);
        text
    }

    /// The text to hand to the ignore rules for this directory.
    pub fn ignore_query(&self) -> (text: String)
        ensures
            text@ == query_text(self@),
    {
        let mut text = self.display();
        proof {
            reveal_strlit("/");
        }
        text.append("/");
        text
    }
}

impl Clone for RelPath {
    fn clone(&self) -> (copy: RelPath)
        ensures
            copy@ == self@,
    {
        let mut parts: Vec<String> = Vec::new();
        let mut i: usize = 0;
        while i < self.parts.len()
            invariant
                i <= self.parts.len(),
                parts@.len() == i,
                forall|j: int| 0 <= j < i ==> parts@[j]@ == self.parts@[j]@,
            decreases self.parts.len() - i,
        {
            parts.push(self.parts[i].clone());
            i += 1;
        }
        let copy = RelPath { parts };
        assert(copy@ =~= self@);
        copy
    }
}

} // verus!
