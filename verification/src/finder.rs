//! Discovery bookkeeping for the images to process: a root directory path and
//! the file paths found under it. Reading a directory is I/O and belongs to
//! the caller, which hands the finder each entry's path together with whether
//! the entry is a file; the finder keeps exactly the file entries.

use vstd::prelude::*;

verus! {

/// The error a caller reports when reading the image directory fails; it
/// carries the underlying message.
#[derive(Debug)]
pub enum ImageFinderError {
    IOError(String),
}

/// The paths of the file entries in a directory listing, in order: an entry
/// is kept exactly when it is a file.
pub open spec fn file_paths(entries: Seq<(String, bool)>) -> Seq<Seq<char>>
    decreases entries.len(),
{
    if entries.len() == 0 {
        Seq::empty()
    } else {
        let rest = file_paths(entries.drop_last());
        if entries.last().1 {
            rest.push(entries.last().0@)
        } else {
            rest
        }
    }
}

/// Finds the images under a directory: the caller reads the directory and
/// hands the entries over; the finder records the files among them.
pub struct ImageFinder {
    paths: String,
    paths_buff: Vec<String>,
}

impl ImageFinder {
    /// The directory the finder searches.
    pub closed spec fn root(&self) -> Seq<char> {
        self.paths@
    }

    /// The file paths recorded so far.
    pub closed spec fn found(&self) -> Seq<Seq<char>> {
        self.paths_buff.deep_view()
    }

    /// A finder for the given directory, with nothing found yet.
    pub fn new(paths: String) -> (r: Self)
        ensures
            r.root() == paths@,
            r.found() == Seq::<Seq<char>>::empty(),
    {
        let r = ImageFinder { paths, paths_buff: Vec::new() };
        proof {
            assert(r.found() =~= Seq::<Seq<char>>::empty());
        }
        r
    }

    /// Records a directory listing: of each entry, given as its path and
    /// whether it is a file, exactly the files' paths are kept, in order.
    #[verifier::loop_isolation(false)]
    pub fn image_path_finding(&mut self, entries: &Vec<(String, bool)>)
        ensures
            final(self).root() == old(self).root(),
            final(self).found() == old(self).found() + file_paths(entries@),
    {
        let ghost orig: Seq<Seq<char>> = self.found();
        let mut k: usize = 0;
        while k < entries.len()
            invariant
                k <= entries@.len(),
                self.root() == old(self).root(),
                self.found() == orig + file_paths(entries@.take(k as int)),
            decreases entries@.len() - k,
        {
            let ghost prev: Seq<Seq<char>> = self.found();
            proof {
                assert(entries@.take(k as int + 1).drop_last() =~= entries@.take(k as int));
                assert(entries@.take(k as int + 1).last() == entries@[k as int]);
            }
            let e = &entries[k];
            if e.1 {
                let path = e.0.clone();
                self.paths_buff.push(path);
                proof {
                    assert(self.found() =~= prev.push(entries@[k as int].0@));
                    assert(self.found() =~= orig + file_paths(entries@.take(k as int + 1)));
                }
            }
            k = k + 1;
        }
        proof {
            assert(entries@.take(entries@.len() as int) =~= entries@);
        }
    }

    /// The file paths recorded so far.
    pub fn get_paths(&self) -> (r: &Vec<String>)
        ensures
            r.deep_view() == self.found(),
    {
        &self.paths_buff
    }
}

} // verus!
