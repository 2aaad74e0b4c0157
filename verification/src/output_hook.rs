//! The output hooks a finished refinement, dream cycle or insight is sent to, and which of them
//! an event fires.

use vstd::prelude::*;
use crate::text::{copy_strings, join_path, owned, str_eq, strings_view};

verus! {

/// What fires a hook.
#[derive(Debug, Clone, Copy, PartialEq, Eq, Structural)]
pub enum HookTrigger {
    OnRefineComplete,
    OnDreamCycle,
    OnInsight,
}

/// Where a hook sends its payload.
#[derive(Debug, Clone)]
pub enum HookTarget {
    HttpWebhook { url: String },
    StdioCommand { program: String, args: Vec<String> },
    FileSink { path: String },
}

/// Which claims a hook passes on: at least the confidence (the bit pattern of a 32-bit float),
/// at most the number of chunks, and the topics it is about.
#[derive(Debug, Clone)]
pub struct RAGFilter {
    pub min_confidence_bits: u32,
    pub max_chunks: usize,
    pub topic_keywords: Vec<String>,
}

/// A hook: its id, name, trigger, target and filter, and whether it is on.
#[derive(Debug, Clone)]
pub struct OutputHook {
    pub id: String,
    pub name: String,
    pub trigger: HookTrigger,
    pub target: HookTarget,
    pub filter: RAGFilter,
    pub enabled: bool,
}

/// The bit pattern of the 32-bit float 0.7, the default least confidence.
pub const DEFAULT_MIN_CONFIDENCE_BITS: u32 = 0x3f33_3333u32;

/// A copy of a hook.
fn copy_hook(h: &OutputHook) -> (res: OutputHook)
    ensures
        res.id@ == h.id@,
        res.name@ == h.name@,
        res.trigger == h.trigger,
        res.enabled == h.enabled,
{
    OutputHook {
        id: h.id.clone(),
        name: h.name.clone(),
        trigger: h.trigger,
        target: match &h.target {
            HookTarget::HttpWebhook { url } => HookTarget::HttpWebhook { url: url.clone() },
            HookTarget::StdioCommand { program, args } => HookTarget::StdioCommand {
                program: program.clone(),
                args: copy_strings(args),
            },
            HookTarget::FileSink { path } => HookTarget::FileSink { path: path.clone() },
        },
        filter: RAGFilter {
            min_confidence_bits: h.filter.min_confidence_bits,
            max_chunks: h.filter.max_chunks,
            topic_keywords: copy_strings(&h.filter.topic_keywords),
        },
        enabled: h.enabled,
    }
}

/// The hooks of a vault, in the order they were added.
pub struct OutputManager {
    hooks: Vec<OutputHook>,
}

/// The ids of the hooks.
pub open spec fn hook_ids(hooks: Seq<OutputHook>) -> Seq<Seq<char>> {
    hooks.map_values(|h: OutputHook| h.id@)
}

/// `i` is the first hook with the id.
pub open spec fn first_hook_at(hooks: Seq<OutputHook>, id: Seq<char>, i: int) -> bool {
    &&& 0 <= i < hooks.len()
    &&& hooks[i].id@ == id
    &&& forall|j: int| 0 <= j < i ==> #[trigger] hooks[j].id@ != id
}

/// `hooks` without its first hook with the id, and whether there was one.
pub open spec fn removed_first(hooks: Seq<OutputHook>, id: Seq<char>, res: Seq<OutputHook>, found: bool) -> bool {
    if hook_ids(hooks).contains(id) {
        found && exists|i: int| #[trigger] first_hook_at(hooks, id, i) && res == hooks.remove(i)
    } else {
        !found && res == hooks
    }
}

/// The hooks an event fires: those that are on and have its trigger, in order.
pub open spec fn fired(hooks: Seq<OutputHook>, event: HookTrigger) -> Seq<OutputHook> {
    hooks.filter(|h: OutputHook| h.enabled && h.trigger == event)
}

impl OutputManager {
    /// The hooks, in order.
    pub closed spec fn hooks(&self) -> Seq<OutputHook> {
        self.hooks@
    }

    /// No hooks.
    pub fn new() -> (res: OutputManager)
        ensures
            res.hooks().len() == 0,
    {
        OutputManager { hooks: Vec::new() }
    }

    /// The default hooks: one that writes refinement results to `output` below the vault's
    /// `.dualtrack` folder, with the default filter.
    pub fn load_defaults(dualtrack_dir: &str) -> (res: OutputManager)
        ensures
            res.hooks().len() == 1,
            res.hooks()[0].id@ == "default-file-sink"@,
            res.hooks()[0].name@ == "Default File Output"@,
            res.hooks()[0].trigger == HookTrigger::OnRefineComplete,
            res.hooks()[0].target matches HookTarget::FileSink { path }
                && path@ == crate::text::path_join(dualtrack_dir@, "output"@),
            res.hooks()[0].filter.min_confidence_bits == DEFAULT_MIN_CONFIDENCE_BITS,
            res.hooks()[0].filter.max_chunks == 10,
            res.hooks()[0].filter.topic_keywords@.len() == 0,
            res.hooks()[0].enabled,
    {
        let hook = OutputHook {
            id: owned("default-file-sink"),
            name: owned("Default File Output"),
            trigger: HookTrigger::OnRefineComplete,
            target: HookTarget::FileSink { path: join_path(dualtrack_dir, "output") },
            filter: RAGFilter {
                min_confidence_bits: DEFAULT_MIN_CONFIDENCE_BITS,
                max_chunks: 10,
                topic_keywords: Vec::new(),
            },
            enabled: true,
        };
        let mut hooks: Vec<OutputHook> = Vec::new();
        hooks.push(hook);
        OutputManager { hooks }
    }

    /// Adds a hook after the others.
    pub fn add_hook(&mut self, hook: OutputHook)
        ensures
            final(self).hooks() == old(self).hooks().push(hook),
    {
        self.hooks.push(hook);
    }

    /// Removes the first hook with the id; whether there was one.
    pub fn remove_hook(&mut self, id: &str) -> (res: bool)
        ensures
            removed_first(old(self).hooks(), id@, final(self).hooks(), res),
    {
        let ghost hs = self.hooks@;
        let mut i: usize = 0;
        while i < self.hooks.len()
            invariant
                i <= self.hooks.len(),
                self.hooks@ == hs,
                old(self).hooks@ == hs,
                forall|j: int| 0 <= j < i ==> #[trigger] hs[j].id@ != id@,
            decreases self.hooks.len() - i,
        {
            if str_eq(self.hooks[i].id.as_str(), id) {
                self.hooks.remove(i);
                assert(hook_ids(hs)[i as int] == id@);
                assert(self.hooks@ == hs.remove(i as int));
                assert(first_hook_at(hs, id@, i as int));
                assert(old(self).hooks() == hs);
                assert(self.hooks() == hs.remove(i as int));
                return true;
            }
            i = i + 1;
        }
        assert forall|k: int| 0 <= k < hook_ids(hs).len() implies hook_ids(hs)[k] != id@ by {
            assert(hook_ids(hs)[k] == hs[k].id@);
        }
        false
    }

    /// The ids, names, triggers and states of the hooks, in order, as copies.
    pub fn list_hooks(&self) -> (res: Vec<OutputHook>)
        ensures
            res@.len() == self.hooks().len(),
            forall|i: int| 0 <= i < res@.len() ==> {
                &&& (#[trigger] res@[i]).id@ == self.hooks()[i].id@
                &&& res@[i].name@ == self.hooks()[i].name@
                &&& res@[i].trigger == self.hooks()[i].trigger
                &&& res@[i].enabled == self.hooks()[i].enabled
            },
    {
        let mut out: Vec<OutputHook> = Vec::new();
        let mut i: usize = 0;
        while i < self.hooks.len()
            invariant
                i <= self.hooks.len(),
                out@.len() == i,
                forall|j: int| 0 <= j < i ==> {
                    &&& (#[trigger] out@[j]).id@ == self.hooks@[j].id@
                    &&& out@[j].name@ == self.hooks@[j].name@
                    &&& out@[j].trigger == self.hooks@[j].trigger
                    &&& out@[j].enabled == self.hooks@[j].enabled
                },
            decreases self.hooks.len() - i,
        {
            out.push(copy_hook(&self.hooks[i]));
            i = i + 1;
        }
        out
    }

    /// The ids of the hooks an event fires: those that are on and have its trigger, in order.
    pub fn hooks_for(&self, event: HookTrigger) -> (res: Vec<String>)
        ensures
            strings_view(res@) == hook_ids(fired(self.hooks(), event)),
    {
        let ghost hs = self.hooks@;
        let ghost keep = |h: OutputHook| h.enabled && h.trigger == event;
        let mut out: Vec<String> = Vec::new();
        let mut i: usize = 0;
        while i < self.hooks.len()
            invariant
                i <= self.hooks.len(),
                hs == self.hooks@,
                keep == (|h: OutputHook| h.enabled && h.trigger == event),
                strings_view(out@) == hook_ids(hs.take(i as int).filter(keep)),
            decreases self.hooks.len() - i,
        {
            proof {
                assert(hs.take(i + 1) == hs.take(i as int).push(hs[i as int]));
                hs.take(i as int).lemma_filter_push(hs[i as int], keep);
            }
            if self.hooks[i].enabled && self.hooks[i].trigger == event {
                let ghost before = strings_view(out@);
                out.push(self.hooks[i].id.clone());
                assert(strings_view(out@) =~= before.push(hs[i as int].id@));
                assert(hook_ids(hs.take(i + 1).filter(keep)) =~= hook_ids(hs.take(i as int).filter(keep)).push(hs[i as int].id@));
            }
            i = i + 1;
        }
        assert(hs.take(self.hooks.len() as int) == hs);
        out
    }
}

} // verus!
