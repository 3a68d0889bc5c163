//! A file that is compared: where it lies and what is known of its bytes.

use std::path::PathBuf;
use vstd::prelude::*;

verus! {

/// The opaque type of a path in the file system.
#[verifier::external_type_specification]
#[verifier::external_body]
pub struct ExPathBuf(std::path::PathBuf);

/// Which of the two compared files is meant.
#[derive(Debug, Clone, Copy, PartialEq, Eq, Structural)]
pub enum FileSlot {
    A,
    B,
}

/// What a [`LoadedFile`] stands for.
#[verifier::ext_equal]
pub struct FileView {
    /// Where the file lies.
    pub path: PathBuf,
    /// Whether its bytes have arrived.
    pub ready: bool,
    /// The number of bytes that arrived.
    pub size: usize,
    /// The bytes, unless they can no longer be read.
    pub content: Option<Seq<u8>>,
}

impl FileView {
    /// The size of a file is the length of its bytes, as far as they can be
    /// read, and nothing has arrived of a file that is not ready.
    pub open spec fn wf(self) -> bool {
        &&& self.content matches Some(bytes) ==> self.size == bytes.len()
        &&& !self.ready ==> self.size == 0
    }

    /// A file of which nothing has arrived yet.
    pub open spec fn unread(path: PathBuf) -> FileView {
        FileView { path, ready: false, size: 0, content: Some(Seq::empty()) }
    }

    /// The file once `bytes` have arrived. Bytes that can no longer be read
    /// stay unreadable, but the arrival and its size are still recorded.
    pub open spec fn with_content(self, bytes: Seq<u8>) -> FileView {
        FileView {
            path: self.path,
            ready: true,
            size: bytes.len() as usize,
            content: if self.content is Some {
                Some(bytes)
            } else {
                None
            },
        }
    }
}

/// Bytes that become unreadable for good when a holder fails while it works
/// on them.
#[derive(Debug)]
pub struct DataLock {
    bytes: Vec<u8>,
    poisoned: bool,
}

impl View for DataLock {
    type V = Option<Seq<u8>>;

    closed spec fn view(&self) -> Option<Seq<u8>> {
        if self.poisoned {
            None
        } else {
            Some(self.bytes@)
        }
    }
}

impl DataLock {
    /// The bytes, unless they have become unreadable.
    pub fn lock(&self) -> (bytes: Option<&Vec<u8>>)
        ensures
            self@ is None ==> bytes is None,
            self@ matches Some(content) ==> bytes matches Some(b) && b@ == content,
    {
        if self.poisoned {
            None
        } else {
            Some(&self.bytes)
        }
    }
}

/// The bytes of a file, and how far its loading has come.
#[derive(Debug)]
struct LoadState {
    data: DataLock,
    ready: bool,
    size: usize,
}

impl LoadState {
    #[verifier::type_invariant]
    spec fn inv(self) -> bool {
        &&& !self.data.poisoned ==> self.size == self.data.bytes@.len()
        &&& !self.ready ==> self.size == 0
    }
}

/// A file that was chosen for comparison. Its bytes arrive later, by
/// [`LoadedFile::set_data`].
#[derive(Debug)]
pub struct LoadedFile {
    path: PathBuf,
    state: LoadState,
}

impl View for LoadedFile {
    type V = FileView;

    closed spec fn view(&self) -> FileView {
        FileView {
            path: self.path,
            ready: self.state.ready,
            size: self.state.size,
            content: self.state.data@,
        }
    }
}

impl LoadedFile {
    /// A file of which nothing has arrived yet.
    pub fn new(path: PathBuf) -> (file: Self)
        ensures
            file@ == FileView::unread(path),
    {
        let file = LoadedFile {
            path,
            state: LoadState {
                data: DataLock { bytes: Vec::new(), poisoned: false },
                ready: false,
                size: 0,
            },
        };
        assert(file@.content->0 =~= Seq::<u8>::empty());
        file
    }

    /// Where the file lies.
    pub fn path(&self) -> (path: &PathBuf)
        ensures
            *path == self@.path,
    {
        &self.path
    }

    /// Whether the bytes of the file have arrived.
    pub fn is_ready(&self) -> (ready: bool)
        ensures
            ready == self@.ready,
            self@.wf(),
    {
        proof {
            use_type_invariant(&self.state);
        }
        self.state.ready
    }

    /// The number of bytes that arrived.
    pub fn size(&self) -> (size: usize)
        ensures
            size == self@.size,
            self@.wf(),
    {
        proof {
            use_type_invariant(&self.state);
        }
        self.state.size
    }

    /// Hands the bytes to `f`, and gives back what `f` made of them; nothing
    /// if the bytes can no longer be read.
    pub fn with_data<F, T>(&self, f: F) -> (made: Option<T>) where F: FnOnce(&[u8]) -> T
        requires
            self@.content matches Some(bytes) ==> forall|data: &[u8]|
                data@ == bytes ==> call_requires(f, (data,)),
        ensures
            made is Some <==> self@.content is Some,
            made matches Some(t) ==> exists|data: &[u8]|
                data@ == self@.content->0 && call_ensures(f, (data,), t),
    {
        match self.state.data.lock() {
            Some(bytes) => Some(f(bytes.as_slice())),
            None => None,
        }
    }

    /// Records the bytes of the file. From then on the file is ready.
    pub fn set_data(&mut self, new_data: Vec<u8>)
        ensures
            final(self)@ == old(self)@.with_content(new_data@),
    {
        let size: usize = new_data.len();
        if self.state.data.poisoned {
            self.state.ready = true;
            self.state.size = size;
        } else {
            self.state = LoadState {
                data: DataLock { bytes: new_data, poisoned: false },
                ready: true,
                size,
            };
        }
    }

    /// Makes the bytes unreadable: what was working on them failed midway.
    pub fn poison_data(&mut self)
        ensures
            final(self)@ == (FileView { content: None, ..old(self)@ }),
    {
        proof {
            use_type_invariant(&self.state);
        }
        self.state.data.poisoned = true;
    }

    /// The bytes behind their lock.
    pub fn data(&self) -> (data: &DataLock)
        ensures
            data@ == self@.content,
            self@.wf(),
    {
        proof {
            use_type_invariant(&self.state);
        }
        &self.state.data
    }
}

} // verus!
