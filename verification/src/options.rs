//! The set of toggleable synchronization flags plus exclusion patterns.

use vstd::prelude::*;
use crate::text::clone_string_vec;

verus! {

/// Mathematical view of an option set: the eleven flags and the ordered
/// exclusion patterns as sequences of characters.
#[verifier::ext_equal]
pub ghost struct OptionsView {
    pub archive: bool,
    pub verbose: bool,
    pub compress: bool,
    pub dry_run: bool,
    pub progress: bool,
    pub delete: bool,
    pub human_readable: bool,
    pub use_ssh: bool,
    pub delete_source: bool,
    pub delete_excluded: bool,
    pub progress_per_file: bool,
    pub exclude: Seq<Seq<char>>,
}

/// The toggleable flags of a sync invocation, plus exclusion patterns.
pub struct RsyncOptions {
    pub archive: bool,
    pub verbose: bool,
    pub compress: bool,
    pub dry_run: bool,
    pub progress: bool,
    pub delete: bool,
    pub human_readable: bool,
    pub use_ssh: bool,
    pub delete_source: bool,
    pub delete_excluded: bool,
    pub progress_per_file: bool,
    pub exclude: Vec<String>,
}

impl View for RsyncOptions {
    type V = OptionsView;

    open spec fn view(&self) -> OptionsView {
        OptionsView {
            archive: self.archive,
            verbose: self.verbose,
            compress: self.compress,
            dry_run: self.dry_run,
            progress: self.progress,
            delete: self.delete,
            human_readable: self.human_readable,
            use_ssh: self.use_ssh,
            delete_source: self.delete_source,
            delete_excluded: self.delete_excluded,
            progress_per_file: self.progress_per_file,
            exclude: self.exclude.deep_view(),
        }
    }
}

/// The fixed defaults: archive, verbose, progress and human-readable on,
/// every other flag off, no exclusion patterns.
pub open spec fn spec_default_options() -> OptionsView {
    OptionsView {
        archive: true,
        verbose: true,
        compress: false,
        dry_run: false,
        progress: true,
        delete: false,
        human_readable: true,
        use_ssh: false,
        delete_source: false,
        delete_excluded: false,
        progress_per_file: false,
        exclude: Seq::empty(),
    }
}

/// The option set after a toggle request: flag `index` flipped when
/// `index` addresses one of the eleven flags, everything untouched
/// otherwise.
pub open spec fn spec_toggle(o: OptionsView, index: usize) -> OptionsView {
    if index == 0 {
        OptionsView { archive: !o.archive, ..o }
    } else if index == 1 {
        OptionsView { verbose: !o.verbose, ..o }
    } else if index == 2 {
        OptionsView { compress: !o.compress, ..o }
    } else if index == 3 {
        OptionsView { dry_run: !o.dry_run, ..o }
    } else if index == 4 {
        OptionsView { progress: !o.progress, ..o }
    } else if index == 5 {
        OptionsView { delete: !o.delete, ..o }
    } else if index == 6 {
        OptionsView { human_readable: !o.human_readable, ..o }
    } else if index == 7 {
        OptionsView { use_ssh: !o.use_ssh, ..o }
    } else if index == 8 {
        OptionsView { delete_source: !o.delete_source, ..o }
    } else if index == 9 {
        OptionsView { delete_excluded: !o.delete_excluded, ..o }
    } else if index == 10 {
        OptionsView { progress_per_file: !o.progress_per_file, ..o }
    } else {
        o
    }
}

impl Default for RsyncOptions {
    /// The fixed default option set.
    fn default() -> (r: Self)
        ensures
            r@ == spec_default_options(),
    {
        let r = RsyncOptions {
            archive: true,
            verbose: true,
            compress: false,
            dry_run: false,
            progress: true,
            delete: false,
            human_readable: true,
            use_ssh: false,
            delete_source: false,
            delete_excluded: false,
            progress_per_file: false,
            exclude: Vec::new(),
        };
        proof {
            assert(r@ =~= spec_default_options());
        }
        r
    }
}

impl Clone for RsyncOptions {
    /// An independent copy: mutating the copy never reaches the original.
    fn clone(&self) -> (r: Self)
        ensures
            r@ == self@,
    {
        let r = RsyncOptions {
            archive: self.archive,
            verbose: self.verbose,
            compress: self.compress,
            dry_run: self.dry_run,
            progress: self.progress,
            delete: self.delete,
            human_readable: self.human_readable,
            use_ssh: self.use_ssh,
            delete_source: self.delete_source,
            delete_excluded: self.delete_excluded,
            progress_per_file: self.progress_per_file,
            exclude: clone_string_vec(&self.exclude),
        };
        proof {
            assert(r@ =~= self@);
        }
        r
    }
}

impl RsyncOptions {
    /// Flip the flag addressed by `index`; an index outside the eleven
    /// flags is a silent no-op.
    pub fn toggle(&mut self, index: usize)
        ensures
            final(self)@ == spec_toggle(old(self)@, index),
            index >= 11 ==> final(self)@ == old(self)@,
    {
        match index {
            0 => self.archive = !self.archive,
            1 => self.verbose = !self.verbose,
            2 => self.compress = !self.compress,
            3 => self.dry_run = !self.dry_run,
            4 => self.progress = !self.progress,
            5 => self.delete = !self.delete,
            6 => self.human_readable = !self.human_readable,
            7 => self.use_ssh = !self.use_ssh,
            8 => self.delete_source = !self.delete_source,
            9 => self.delete_excluded = !self.delete_excluded,
            10 => self.progress_per_file = !self.progress_per_file,
            _ => {},
        }
        proof {
            assert(self@ =~= spec_toggle(old(self)@, index));
        }
    }
}

/// A toggle request outside the eleven flag indices leaves every flag and
/// every exclusion pattern unchanged.
pub proof fn lemma_toggle_out_of_range_is_noop(o: OptionsView, index: usize)
    requires
        index >= 11,
    ensures
        spec_toggle(o, index) == o,
{
}

} // verus!
