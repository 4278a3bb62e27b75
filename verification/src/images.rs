//! Libraries: what is known of an image comes in three events, and the
//! last of them, the load, makes the library.

use crate::context_switch::capped_sum;
use crate::engine::{ensure_process, targeted, Step};
use crate::events::Guid;
use crate::handles::LibraryHandle;
use crate::lib_mappings::{LibMappingAdd, LibMappingInfo, LibMappingOp, TimedOp};
use crate::sink::{
    debug_id_from_guid, debug_id_of, op_views, LibraryInfo, LibraryInfoView, SinkOp, SinkOpView,
};
use crate::state::{
    handle_up, next_handle, Engine, EngineView, ImageInfo, ImageView, NextHandles, ProcessView,
};
use crate::tables::{lookup, map_get, map_put, map_take, slot};
use crate::text::{
    file_name, file_name_of, lower_hex, push_lower_hex, push_upper_hex_8, string_of,
    upper_hex_padded,
};
use vstd::prelude::*;
use vstd::string::StringExecFns;

verus! {

/// Whether events of the process `pid` are read for libraries: those of
/// a followed process, and those of the kernel, which has the id 0.
pub open spec fn followed_or_kernel(v: EngineView, pid: u32) -> bool {
    targeted(v, pid) || pid == 0
}

/// The state with the process at place `p` changed.
pub open spec fn with_process(v: EngineView, p: int, process: ProcessView) -> EngineView {
    EngineView { processes: v.processes.update(p, (v.processes[p].0, process)), ..v }
}

/// An image id event: the path, size and link time of the image at
/// `image_base` are kept for the events that follow.
pub open spec fn image_id(
    v: EngineView,
    pid: u32,
    image_base: u64,
    time_date_stamp: u32,
    image_size: u32,
    path: Seq<char>,
) -> Step {
    if !followed_or_kernel(v, pid) {
        Step { state: v, ops: Seq::empty() }
    } else {
        Step {
            state: EngineView {
                libs: v.libs.insert(
                    image_base,
                    ImageView { path, image_size, timestamp: time_date_stamp },
                ),
                ..v
            },
            ops: Seq::empty(),
        }
    }
}

/// The code id of an image: its link time in eight capital hexadecimal
/// digits, then its size in small hexadecimal digits.
pub open spec fn code_id(time_date_stamp: u32, image_size: u32) -> Seq<char> {
    upper_hex_padded(time_date_stamp as nat, 8) + lower_hex(image_size as nat)
}

/// What is known of a library once its debug id has been seen.
pub open spec fn pending_library(image: ImageView, guid: Guid, age: u32, pdb_path: Seq<char>)
    -> LibraryInfoView {
    LibraryInfoView {
        name: file_name_of(image.path),
        debug_name: file_name_of(pdb_path),
        path: image.path,
        debug_path: pdb_path,
        code_id: Some(code_id(image.timestamp, image.image_size)),
        debug_id: debug_id_of(guid.data1, guid.data2, guid.data3, guid.data4@, age),
        arch: Some("x86_64"@),
    }
}

/// A debug id event: with what the image id event said, the library is
/// known but for its path on this machine, and waits for its load. An
/// event for an image of which no image id was seen is dropped.
pub open spec fn dbg_id(
    v: EngineView,
    pid: u32,
    image_base: u64,
    guid: Guid,
    age: u32,
    pdb_path: Seq<char>,
) -> Step {
    if !followed_or_kernel(v, pid) {
        Step { state: v, ops: Seq::empty() }
    } else {
        if !v.libs.contains_key(image_base) {
            Step { state: v, ops: Seq::empty() }
        } else {
            {
                let info = pending_library(v.libs[image_base], guid, age, pdb_path);
                if pid == 0 {
                    Step {
                        state: EngineView {
                            kernel_pending_libraries: v.kernel_pending_libraries.insert(
                                image_base,
                                info,
                            ),
                            ..v
                        },
                        ops: Seq::empty(),
                    }
                } else {
                    let enrolled = ensure_process(v, pid);
                    let w = enrolled.state;
                    let p = slot(v.processes, pid as u64);
                    let process = w.processes[p].1;
                    Step {
                        state: with_process(
                            w,
                            p,
                            ProcessView {
                                pending_libraries: process.pending_libraries.insert(
                                    image_base,
                                    info,
                                ),
                                ..process
                            },
                        ),
                        ops: enrolled.ops,
                    }
                }
            }
        }
    }
}

/// The path under which user space reaches a file that the kernel names
/// `file_name`.
pub open spec fn global_root_path(file_name: Seq<char>) -> Seq<char> {
    "\\\\?\\GLOBALROOT"@ + file_name
}

/// The mapping of a library that was loaded at `image_base`.
pub open spec fn library_mapping(lib: LibraryHandle, image_base: u64, image_size: u64)
    -> LibMappingAdd {
    LibMappingAdd {
        start_avma: image_base,
        end_avma: capped_sum(image_base, image_size),
        relative_address_at_start: 0,
        info: LibMappingInfo { lib_handle: lib, jit_symbol: None },
    }
}

/// An image was loaded. If its library waits for this, the profile gets
/// the library, and the mapping is written down: for the kernel with the
/// profile, for a process in the process's log at the time of the load.
/// A load of an image that does not wait is ignored.
pub open spec fn image_load(
    v: EngineView,
    timestamp: u64,
    pid: u32,
    image_base: u64,
    image_size: u64,
    file_name: Seq<char>,
) -> Step {
    let lib = LibraryHandle(v.next.lib);
    let next = NextHandles { lib: next_handle(v.next.lib), ..v.next };
    let mapping = library_mapping(lib, image_base, image_size);
    if !followed_or_kernel(v, pid) {
        Step { state: v, ops: Seq::empty() }
    } else if pid == 0 {
        if !v.kernel_pending_libraries.contains_key(image_base) {
            Step { state: v, ops: Seq::empty() }
        } else {
            Step {
                state: EngineView {
                    kernel_pending_libraries: v.kernel_pending_libraries.remove(image_base),
                    next,
                    ..v
                },
                ops: seq![
                    SinkOpView::AddLib {
                        lib,
                        info: LibraryInfoView {
                            path: global_root_path(file_name),
                            ..v.kernel_pending_libraries[image_base]
                        },
                    },
                    SinkOpView::AddKernelLibMapping {
                        lib,
                        start_avma: mapping.start_avma,
                        end_avma: mapping.end_avma,
                        relative_address_at_start: 0,
                    },
                ],
            }
        }
    } else {
        match lookup(v.processes, pid as u64) {
            None => Step { state: v, ops: Seq::empty() },
            Some(p) => {
                let process = v.processes[p].1;
                if !process.pending_libraries.contains_key(image_base) {
                    Step { state: v, ops: Seq::empty() }
                } else {
                    Step {
                        state: EngineView {
                            next,
                            ..with_process(
                                v,
                                p,
                                ProcessView {
                                    pending_libraries: process.pending_libraries.remove(
                                        image_base,
                                    ),
                                    regular_lib_mapping_ops: process.regular_lib_mapping_ops.push(
                                        TimedOp { timestamp, op: LibMappingOp::Add(mapping) },
                                    ),
                                    ..process
                                },
                            )
                        },
                        ops: seq![
                            SinkOpView::AddLib {
                                lib,
                                info: LibraryInfoView {
                                    path: global_root_path(file_name),
                                    ..process.pending_libraries[image_base]
                                },
                            },
                        ],
                    }
                }
            },
        }
    }
}

impl Engine {
    fn is_followed_or_kernel(&self, pid: u32) -> (read: bool)
        ensures
            read == followed_or_kernel(self@, pid),
    {
        self.is_targeted(pid) || pid == 0
    }

    pub fn on_image_id(
        &mut self,
        pid: u32,
        image_base: u64,
        time_date_stamp: u32,
        image_size: u32,
        path: String,
    ) -> (ops: Vec<SinkOp>)
        requires
            old(self).well_formed(),
        ensures
            final(self).well_formed(),
            final(self)@ == image_id(
                old(self)@,
                pid,
                image_base,
                time_date_stamp,
                image_size,
                path@,
            ).state,
            op_views(ops@) == image_id(
                old(self)@,
                pid,
                image_base,
                time_date_stamp,
                image_size,
                path@,
            ).ops,
    {
        let ops: Vec<SinkOp> = Vec::new();
        assert(op_views(ops@) =~= Seq::<SinkOpView>::empty());
        if self.is_followed_or_kernel(pid) {
            map_put(
                &mut self.libs,
                image_base,
                ImageInfo { path, image_size, timestamp: time_date_stamp },
            );
        }
        ops
    }

    pub fn on_dbg_id(
        &mut self,
        pid: u32,
        image_base: u64,
        guid: Guid,
        age: u32,
        pdb_path: String,
    ) -> (ops: Vec<SinkOp>)
        requires
            old(self).well_formed(),
        ensures
            final(self).well_formed(),
            final(self)@ == dbg_id(old(self)@, pid, image_base, guid, age, pdb_path@).state,
            op_views(ops@) == dbg_id(old(self)@, pid, image_base, guid, age, pdb_path@).ops,
    {
        let mut ops: Vec<SinkOp> = Vec::new();
        assert(op_views(ops@) =~= Seq::<SinkOpView>::empty());
        if !self.is_followed_or_kernel(pid) {
            return ops;
        }
        let image = match map_get(&self.libs, image_base) {
            Some(image) => image,
            None => {
                return ops;
            },
        };
        let mut code: Vec<char> = Vec::new();
        push_upper_hex_8(&mut code, image.timestamp);
        push_lower_hex(&mut code, image.image_size as u64);
        let info = LibraryInfo {
            name: file_name(image.path.as_str()),
            debug_name: file_name(pdb_path.as_str()),
            path: image.path.clone(),
            code_id: Some(string_of(&code)),
            debug_path: pdb_path,
            debug_id: debug_id_from_guid(guid.data1, guid.data2, guid.data3, &guid.data4, age),
            arch: Some("x86_64".to_owned()),
        };
        assert(info@ =~= pending_library(self@.libs[image_base], guid, age, pdb_path@)) by {
            assert(code@ =~= code_id(image.timestamp, image.image_size));
        }
        if pid == 0 {
            map_put(&mut self.kernel_pending_libraries, image_base, info);
        } else {
            let p: usize = self.ensure_process(pid, &mut ops);
            let ghost before = self@;
            assert(before.processes[p as int].1 == self.processes.entries@[p as int].value@);
            map_put(&mut self.processes.entries[p].value.pending_libraries, image_base, info);
            proof {
                let process = before.processes[p as int].1;
                assert(self@.processes =~= before.processes.update(
                    p as int,
                    (
                        before.processes[p as int].0,
                        ProcessView {
                            pending_libraries: process.pending_libraries.insert(image_base, info@),
                            ..process
                        },
                    ),
                ));
            }
        }
        ops
    }

    pub fn on_image_load(
        &mut self,
        timestamp: u64,
        pid: u32,
        image_base: u64,
        image_size: u64,
        file_name: String,
    ) -> (ops: Vec<SinkOp>)
        requires
            old(self).well_formed(),
        ensures
            final(self).well_formed(),
            final(self)@ == image_load(
                old(self)@,
                timestamp,
                pid,
                image_base,
                image_size,
                file_name@,
            ).state,
            op_views(ops@) == image_load(
                old(self)@,
                timestamp,
                pid,
                image_base,
                image_size,
                file_name@,
            ).ops,
    {
        let mut ops: Vec<SinkOp> = Vec::new();
        assert(op_views(ops@) =~= Seq::<SinkOpView>::empty());
        if !self.is_followed_or_kernel(pid) {
            return ops;
        }
        let lib = LibraryHandle(self.next.lib);
        let end_avma: u64 = image_base.saturating_add(image_size);
        let path = "\\\\?\\GLOBALROOT".to_owned().concat(file_name.as_str());
        if pid == 0 {
            let waiting = map_take(&mut self.kernel_pending_libraries, image_base);
            if let Some(mut info) = waiting {
                info.path = path;
                self.next.lib = handle_up(self.next.lib);
                ops.push(SinkOp::AddLib { lib, info });
                ops.push(
                    SinkOp::AddKernelLibMapping {
                        lib,
                        start_avma: image_base,
                        end_avma,
                        relative_address_at_start: 0,
                    },
                );
                assert(op_views(ops@) =~= image_load(
                    old(self)@,
                    timestamp,
                    pid,
                    image_base,
                    image_size,
                    file_name@,
                ).ops);
            }
        } else {
            let p: usize = match self.processes.find(pid as u64) {
                Some(p) => p,
                None => {
                    return ops;
                },
            };
            let ghost before = self@;
            assert(before.processes[p as int].1 == self.processes.entries@[p as int].value@);
            let waiting = map_take(
                &mut self.processes.entries[p].value.pending_libraries,
                image_base,
            );
            if let Some(mut info) = waiting {
                info.path = path;
                self.next.lib = handle_up(self.next.lib);
                ops.push(SinkOp::AddLib { lib, info });
                self.processes.entries[p].value.regular_lib_mapping_ops.push(
                    timestamp,
                    LibMappingOp::Add(
                        LibMappingAdd {
                            start_avma: image_base,
                            end_avma,
                            relative_address_at_start: 0,
                            info: LibMappingInfo::new_lib(lib),
                        },
                    ),
                );
                proof {
                    let process = before.processes[p as int].1;
                    let mapping = library_mapping(lib, image_base, image_size);
                    assert(self@.processes =~= before.processes.update(
                        p as int,
                        (
                            before.processes[p as int].0,
                            ProcessView {
                                pending_libraries: process.pending_libraries.remove(image_base),
                                regular_lib_mapping_ops: process.regular_lib_mapping_ops.push(
                                    TimedOp { timestamp, op: LibMappingOp::Add(mapping) },
                                ),
                                ..process
                            },
                        ),
                    ));
                    assert(op_views(ops@) =~= image_load(
                        old(self)@,
                        timestamp,
                        pid,
                        image_base,
                        image_size,
                        file_name@,
                    ).ops);
                }
            } else {
                assert(self@.processes =~= before.processes);
            }
        }
        ops
    }
}

} // verus!
