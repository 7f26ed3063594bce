use vstd::prelude::*;
use crate::text::str_eq;

verus! {

// The engine never touches the real file system.  It works on a `Directory`:
// a snapshot of a file tree, each file a full path with its text, plus a log
// of the mutations performed, in order.  A caller loads the snapshot, runs
// the engine, and replays the log against the real tree.

pub struct StoredFile {
    pub name: String,
    pub content: String,
}

pub enum FsOp {
    Copy { from: String, to: String },
    Remove { name: String },
    Rename { from: String, to: String },
    Write { name: String, content: String },
}

pub struct Directory {
    pub files: Vec<StoredFile>,
    pub log: Vec<FsOp>,
}

pub open spec fn lookup(files: Seq<StoredFile>, name: Seq<char>) -> Option<Seq<char>>
    decreases files.len(),
{
    if files.len() == 0 {
        None
    } else if files[0].name@ == name {
        Some(files[0].content@)
    } else {
        lookup(files.drop_first(), name)
    }
}

pub open spec fn distinct_names(files: Seq<StoredFile>) -> bool {
    forall|i: int, j: int|
        0 <= i < j < files.len() ==> #[trigger] files[i].name@ != #[trigger] files[j].name@
}

pub open spec fn is_copy_op(op: FsOp, from: Seq<char>, to: Seq<char>) -> bool {
    &&& op matches FsOp::Copy { from: f, to: t }
    &&& f@ == from
    &&& t@ == to
}

pub open spec fn is_remove_op(op: FsOp, name: Seq<char>) -> bool {
    &&& op matches FsOp::Remove { name: n }
    &&& n@ == name
}

pub open spec fn is_rename_op(op: FsOp, from: Seq<char>, to: Seq<char>) -> bool {
    &&& op matches FsOp::Rename { from: f, to: t }
    &&& f@ == from
    &&& t@ == to
}

pub open spec fn is_write_op(op: FsOp, name: Seq<char>, content: Seq<char>) -> bool {
    &&& op matches FsOp::Write { name: n, content: c }
    &&& n@ == name
    &&& c@ == content
}

pub proof fn lemma_lookup_found(files: Seq<StoredFile>, i: int)
    requires
        distinct_names(files),
        0 <= i < files.len(),
    ensures
        lookup(files, files[i].name@) == Some(files[i].content@),
    decreases files.len(),
{
    if i > 0 {
        assert(files[0].name@ != files[i].name@);
        lemma_lookup_found(files.drop_first(), i - 1);
        assert(files.drop_first()[i - 1] == files[i]);
    }
}

pub proof fn lemma_lookup_absent(files: Seq<StoredFile>, name: Seq<char>)
    requires
        forall|i: int| 0 <= i < files.len() ==> #[trigger] files[i].name@ != name,
    ensures
        lookup(files, name) == None::<Seq<char>>,
    decreases files.len(),
{
    if files.len() > 0 {
        lemma_lookup_absent(files.drop_first(), name);
    }
}

proof fn lemma_lookup_push_one(files: Seq<StoredFile>, f: StoredFile, n: Seq<char>)
    requires
        forall|i: int| 0 <= i < files.len() ==> #[trigger] files[i].name@ != f.name@,
    ensures
        lookup(files.push(f), n) == if n == f.name@ {
            Some(f.content@)
        } else {
            lookup(files, n)
        },
    decreases files.len(),
{
    if files.len() == 0 {
        assert(files.push(f)[0] == f);
        if n != f.name@ {
            assert(files.push(f).drop_first() =~= files);
        }
    } else {
        assert(files.push(f)[0] == files[0]);
        assert(files.push(f).drop_first() =~= files.drop_first().push(f));
        assert(files[0].name@ != f.name@);
        lemma_lookup_push_one(files.drop_first(), f, n);
    }
}

proof fn lemma_lookup_push(files: Seq<StoredFile>, f: StoredFile)
    requires
        forall|i: int| 0 <= i < files.len() ==> #[trigger] files[i].name@ != f.name@,
    ensures
        forall|n: Seq<char>|
            #[trigger] lookup(files.push(f), n) == if n == f.name@ {
                Some(f.content@)
            } else {
                lookup(files, n)
            },
{
    assert forall|n: Seq<char>| #[trigger] lookup(files.push(f), n) == (if n == f.name@ {
        Some(f.content@)
    } else {
        lookup(files, n)
    }) by {
        lemma_lookup_push_one(files, f, n);
    }
}

proof fn lemma_lookup_remove_one(files: Seq<StoredFile>, i: int, n: Seq<char>)
    requires
        distinct_names(files),
        0 <= i < files.len(),
    ensures
        lookup(files.remove(i), n) == if n == files[i].name@ {
            None::<Seq<char>>
        } else {
            lookup(files, n)
        },
    decreases files.len(),
{
    if i == 0 {
        assert(files.remove(0) =~= files.drop_first());
        if n == files[0].name@ {
            assert forall|k: int| 0 <= k < files.drop_first().len() implies #[trigger] files
                .drop_first()[k].name@ != n by {
                assert(files.drop_first()[k] == files[k + 1]);
            }
            lemma_lookup_absent(files.drop_first(), n);
        }
    } else {
        assert(files.remove(i)[0] == files[0]);
        assert(files.remove(i).drop_first() =~= files.drop_first().remove(i - 1));
        assert(files.drop_first()[i - 1] == files[i]);
        assert(files[0].name@ != files[i].name@);
        lemma_lookup_remove_one(files.drop_first(), i - 1, n);
    }
}

proof fn lemma_lookup_remove(files: Seq<StoredFile>, i: int)
    requires
        distinct_names(files),
        0 <= i < files.len(),
    ensures
        forall|n: Seq<char>|
            #[trigger] lookup(files.remove(i), n) == if n == files[i].name@ {
                None::<Seq<char>>
            } else {
                lookup(files, n)
            },
{
    assert forall|n: Seq<char>| #[trigger] lookup(files.remove(i), n) == (if n == files[i].name@ {
        None::<Seq<char>>
    } else {
        lookup(files, n)
    }) by {
        lemma_lookup_remove_one(files, i, n);
    }
}

pub proof fn lemma_prefix_trans(a: Seq<FsOp>, b: Seq<FsOp>, c: Seq<FsOp>)
    requires
        a.is_prefix_of(b),
        b.is_prefix_of(c),
    ensures
        a.is_prefix_of(c),
{
    assert(c.take(a.len() as int) =~= c.take(b.len() as int).take(a.len() as int));
}

impl Directory {
    pub open spec fn wf(self) -> bool {
        distinct_names(self.files@)
    }

    /// The content stored under a full path, if the path exists.
    pub open spec fn file(self, name: Seq<char>) -> Option<Seq<char>> {
        lookup(self.files@, name)
    }

    pub open spec fn has(self, name: Seq<char>) -> bool {
        self.file(name) is Some
    }

    pub fn new() -> (d: Directory)
        ensures
            d.wf(),
            forall|n: Seq<char>| #[trigger] d.file(n) is None,
            d.log@ == Seq::<FsOp>::empty(),
    {
        let d = Directory { files: Vec::new(), log: Vec::new() };
        proof {
            assert forall|n: Seq<char>| #[trigger] d.file(n) is None by {
                lemma_lookup_absent(d.files@, n);
            }
        }
        d
    }

    fn find_index(&self, name: &str) -> (r: Option<usize>)
        ensures
            match r {
                Some(i) => i < self.files@.len() && self.files@[i as int].name@ == name@,
                None => forall|i: int|
                    0 <= i < self.files@.len() ==> #[trigger] self.files@[i].name@ != name@,
            },
    {
        let mut i: usize = 0;
        while i < self.files.len()
            invariant
                i <= self.files@.len(),
                forall|j: int| 0 <= j < i ==> #[trigger] self.files@[j].name@ != name@,
            decreases self.files@.len() - i,
        {
            if str_eq(self.files[i].name.as_str(), name) {
                return Some(i);
            }
            i += 1;
        }
        None
    }

    /// Read the content of a file, if it exists.
    pub fn read(&self, name: &str) -> (r: Option<&String>)
        requires
            self.wf(),
        ensures
            match r {
                Some(c) => self.file(name@) == Some(c@),
                None => self.file(name@) is None,
            },
    {
        match self.find_index(name) {
            Some(i) => {
                proof {
                    lemma_lookup_found(self.files@, i as int);
                }
                Some(&self.files[i].content)
            }
            None => {
                proof {
                    lemma_lookup_absent(self.files@, name@);
                }
                None
            }
        }
    }

    pub fn exists_file(&self, name: &str) -> (r: bool)
        requires
            self.wf(),
        ensures
            r == self.has(name@),
    {
        self.read(name).is_some()
    }

    /// Put a file into the snapshot without recording a mutation; this is
    /// how a caller loads the initial state of the tree.
    pub fn load_file(&mut self, name: &str, content: &str)
        requires
            old(self).wf(),
        ensures
            final(self).wf(),
            forall|n: Seq<char>|
                #[trigger] final(self).file(n) == if n == name@ {
                    Some(content@)
                } else {
                    old(self).file(n)
                },
            final(self).log@ == old(self).log@,
    {
        self.set_file(name, content);
    }

    fn set_file(&mut self, name: &str, content: &str)
        requires
            old(self).wf(),
        ensures
            final(self).wf(),
            forall|n: Seq<char>|
                #[trigger] final(self).file(n) == if n == name@ {
                    Some(content@)
                } else {
                    old(self).file(n)
                },
            final(self).log@ == old(self).log@,
    {
        match self.find_index(name) {
            Some(i) => {
                proof {
                    lemma_lookup_remove(self.files@, i as int);
                }
                let mut f = self.files.remove(i);
                let ghost mid = self.files@;
                proof {
                    assert forall|k: int| 0 <= k < mid.len() implies #[trigger] mid[k].name@
                        != name@ by {
                        if k < i as int {
                            assert(mid[k] == old(self).files@[k]);
                        } else {
                            assert(mid[k] == old(self).files@[k + 1]);
                        }
                    }
                    lemma_lookup_absent(mid, name@);
                }
                f.content = content.to_owned();
                proof {
                    lemma_lookup_push(mid, StoredFile { name: f.name, content: f.content });
                }
                self.files.push(f);
            }
            None => {
                let f = StoredFile { name: name.to_owned(), content: content.to_owned() };
                proof {
                    lemma_lookup_push(self.files@, f);
                }
                self.files.push(f);
            }
        }
    }

    fn delete_inner(&mut self, name: &str)
        requires
            old(self).wf(),
        ensures
            final(self).wf(),
            forall|n: Seq<char>|
                #[trigger] final(self).file(n) == if n == name@ {
                    None::<Seq<char>>
                } else {
                    old(self).file(n)
                },
            final(self).log@ == old(self).log@,
    {
        match self.find_index(name) {
            Some(i) => {
                proof {
                    lemma_lookup_remove(self.files@, i as int);
                }
                self.files.remove(i);
            }
            None => {
                proof {
                    lemma_lookup_absent(self.files@, name@);
                }
            }
        }
    }

    /// Overwrite or create a file, recording the write.
    pub fn write_file(&mut self, name: &str, content: &str)
        requires
            old(self).wf(),
        ensures
            final(self).wf(),
            forall|n: Seq<char>|
                #[trigger] final(self).file(n) == if n == name@ {
                    Some(content@)
                } else {
                    old(self).file(n)
                },
            final(self).log@.len() == old(self).log@.len() + 1,
            final(self).log@.take(old(self).log@.len() as int) == old(self).log@,
            is_write_op(final(self).log@.last(), name@, content@),
    {
        self.set_file(name, content);
        let ghost mid = *self;
        self.log.push(FsOp::Write { name: name.to_owned(), content: content.to_owned() });
        proof {
            assert forall|n: Seq<char>| #[trigger] self.file(n) == (if n == name@ {
                Some(content@)
            } else {
                old(self).file(n)
            }) by {
                assert(mid.file(n) == if n == name@ {
                    Some(content@)
                } else {
                    old(self).file(n)
                });
                assert(self.files@ == mid.files@);
            }
            assert(self.log@.take(old(self).log@.len() as int) =~= old(self).log@);
        }
    }

    /// Copy the content of `from` over `to`, recording the copy.
    pub fn copy_file(&mut self, from: &str, to: &str)
        requires
            old(self).wf(),
            old(self).has(from@),
        ensures
            final(self).wf(),
            forall|n: Seq<char>|
                #[trigger] final(self).file(n) == if n == to@ {
                    old(self).file(from@)
                } else {
                    old(self).file(n)
                },
            final(self).log@.len() == old(self).log@.len() + 1,
            final(self).log@.take(old(self).log@.len() as int) == old(self).log@,
            is_copy_op(final(self).log@.last(), from@, to@),
    {
        let content = match self.read(from) {
            Some(c) => c.clone(),
            None => {
                proof {
                    assert(false);
                }
                String::new()
            }
        };
        self.set_file(to, content.as_str());
        let ghost mid = *self;
        self.log.push(FsOp::Copy { from: from.to_owned(), to: to.to_owned() });
        proof {
            assert forall|n: Seq<char>| #[trigger] self.file(n) == (if n == to@ {
                old(self).file(from@)
            } else {
                old(self).file(n)
            }) by {
                assert(mid.file(n) == if n == to@ {
                    Some(content@)
                } else {
                    old(self).file(n)
                });
                assert(self.files@ == mid.files@);
            }
            assert(self.log@.take(old(self).log@.len() as int) =~= old(self).log@);
        }
    }

    /// Delete a file, recording the removal.
    pub fn remove_file(&mut self, name: &str)
        requires
            old(self).wf(),
        ensures
            final(self).wf(),
            forall|n: Seq<char>|
                #[trigger] final(self).file(n) == if n == name@ {
                    None::<Seq<char>>
                } else {
                    old(self).file(n)
                },
            final(self).log@.len() == old(self).log@.len() + 1,
            final(self).log@.take(old(self).log@.len() as int) == old(self).log@,
            is_remove_op(final(self).log@.last(), name@),
    {
        self.delete_inner(name);
        let ghost mid = *self;
        self.log.push(FsOp::Remove { name: name.to_owned() });
        proof {
            assert forall|n: Seq<char>| #[trigger] self.file(n) == (if n == name@ {
                None::<Seq<char>>
            } else {
                old(self).file(n)
            }) by {
                assert(mid.file(n) == if n == name@ {
                    None::<Seq<char>>
                } else {
                    old(self).file(n)
                });
                assert(self.files@ == mid.files@);
            }
            assert(self.log@.take(old(self).log@.len() as int) =~= old(self).log@);
        }
    }

    /// Move a file to a new path, recording the rename.
    pub fn rename_file(&mut self, from: &str, to: &str)
        requires
            old(self).wf(),
            old(self).has(from@),
            from@ != to@,
        ensures
            final(self).wf(),
            forall|n: Seq<char>|
                #[trigger] final(self).file(n) == if n == to@ {
                    old(self).file(from@)
                } else if n == from@ {
                    None::<Seq<char>>
                } else {
                    old(self).file(n)
                },
            final(self).log@.len() == old(self).log@.len() + 1,
            final(self).log@.take(old(self).log@.len() as int) == old(self).log@,
            is_rename_op(final(self).log@.last(), from@, to@),
    {
        let content = match self.read(from) {
            Some(c) => c.clone(),
            None => {
                proof {
                    assert(false);
                }
                String::new()
            }
        };
        self.delete_inner(from);
        let ghost mid1 = *self;
        self.set_file(to, content.as_str());
        let ghost mid2 = *self;
        self.log.push(FsOp::Rename { from: from.to_owned(), to: to.to_owned() });
        proof {
            assert forall|n: Seq<char>| #[trigger] self.file(n) == (if n == to@ {
                old(self).file(from@)
            } else if n == from@ {
                None::<Seq<char>>
            } else {
                old(self).file(n)
            }) by {
                assert(mid1.file(n) == if n == from@ {
                    None::<Seq<char>>
                } else {
                    old(self).file(n)
                });
                assert(mid2.file(n) == if n == to@ {
                    Some(content@)
                } else {
                    mid1.file(n)
                });
                assert(self.files@ == mid2.files@);
            }
            assert(self.log@.take(old(self).log@.len() as int) =~= old(self).log@);
        }
    }

    /// The number of files in the snapshot.
    pub fn file_count(&self) -> (n: usize)
        ensures
            n == self.files@.len(),
    {
        self.files.len()
    }
}

} // verus!
