use vstd::prelude::*;

verus! {

/// Which preload threshold is in force. A file is read into memory
/// before it is handed to the encoder where its size is below the
/// threshold: `Auto` and `Force` leave the configured limit in force,
/// `Never` sets the threshold to zero.
#[derive(Copy, Clone, Debug, PartialEq, Eq, Structural)]
pub enum PreloadMode {
    Auto,
    Force,
    Never,
}

/// Whether the video track is re-encoded.
#[derive(Copy, Clone, Debug, PartialEq, Eq, Structural)]
pub enum TranscodeMode {
    Auto,
    Force,
    Never,
}

/// What the operator asked for on the command line.
pub struct AppArgs {
    pub input_dir: String,
    pub output_dir: String,
    pub intermediate_dir: Option<String>,
    pub preload_mode: PreloadMode,
    pub transcode_mode: TranscodeMode,
    pub dry_run: bool,
    pub recursive: bool,
}

impl AppArgs {
    pub fn preload_mode(&self) -> (mode: PreloadMode)
        ensures
            mode == self.preload_mode,
    {
        self.preload_mode
    }

    pub fn transcode_mode(&self) -> (mode: TranscodeMode)
        ensures
            mode == self.transcode_mode,
    {
        self.transcode_mode
    }

    pub fn input_dir(&self) -> (dir: String)
        ensures
            dir@ == self.input_dir@,
    {
        self.input_dir.clone()
    }

    pub fn output_dir(&self) -> (dir: String)
        ensures
            dir@ == self.output_dir@,
    {
        self.output_dir.clone()
    }

    pub fn intermediate_dir(&self) -> (dir: Option<String>)
        ensures
            dir.is_some() == self.intermediate_dir.is_some(),
            dir.is_some() ==> dir.unwrap()@ == self.intermediate_dir.unwrap()@,
    {
        match &self.intermediate_dir {
            Some(d) => Some(d.clone()),
            None => None,
        }
    }

    pub fn dry_run(&self) -> (flag: bool)
        ensures
            flag == self.dry_run,
    {
        self.dry_run
    }

    pub fn recursive(&self) -> (flag: bool)
        ensures
            flag == self.recursive,
    {
        self.recursive
    }

    /// How deep a listing of the input directory goes: the directory's own
    /// entries only, or without limit when recursing.
    pub fn listing_depth(&self) -> (depth: Option<usize>)
        ensures
            depth == if self.recursive {
                None::<usize>
            } else {
                Some(1usize)
            },
    {
        if self.recursive {
            None
        } else {
            Some(1)
        }
    }
}

} // verus!
