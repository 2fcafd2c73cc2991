//! The contract VM host: compiles bytecode from the content-addressed
//! store, provisions linear memory (host-owned or guest-owned), marshals
//! byte payloads through the buffer-builder protocol and invokes the six
//! contract entry points.
//!
//! The engine itself is outside code; every value coming back from the
//! guest — pointers, sizes, result codes — is bounds-checked here before
//! use, so no guest behavior can make the host read out of bounds.

use vstd::prelude::*;
use crate::bytes::read_u32_le;
use crate::bytes::spec_u32_from_le;
use crate::payload::Parameters;
use crate::payload::State;
use crate::payload::StateDelta;
use crate::payload::StateSummary;
use crate::payload::UpdateResult;
use crate::payload::decode_update_result;
use crate::store::ContractStore;
use crate::bytes::bytes_eq;
use crate::bytes::copy_bytes;

verus! {

/// Size in bytes of one linear-memory page.
pub const PAGE_SIZE: u64 = 65536;

/// Initial extent of a host-provided memory, in pages.
pub const HOST_MEM_PAGES: u32 = 20;

/// Size in bytes of a buffer builder record in guest memory: four 32-bit
/// words `start`, `capacity`, `size`, `owner`, little-endian.
pub const BUILDER_SIZE: u64 = 16;

#[verifier::external_type_specification]
#[verifier::external_body]
pub struct ExStore(wasmer::Store);

#[verifier::external_type_specification]
#[verifier::external_body]
pub struct ExModule(wasmer::Module);

#[verifier::external_type_specification]
#[verifier::external_body]
pub struct ExInstance(wasmer::Instance);

#[verifier::external_type_specification]
#[verifier::external_body]
pub struct ExMemory(wasmer::Memory);

#[verifier::external_type_specification]
#[verifier::external_body]
pub struct ExImports(wasmer::Imports);

#[verifier::external_type_specification]
#[verifier::external_body]
#[verifier::reject_recursive_types(A)]
#[verifier::reject_recursive_types(R)]
pub struct ExTypedFunction<A, R>(wasmer::TypedFunction<A, R>);

/// Why a contract call failed.
#[derive(Debug)]
pub enum ExecError {
    /// Bytecode for the key is neither cached nor in the store.
    ContractNotFound,
    /// The bytecode failed to compile.
    CompileError,
    /// The module failed to instantiate.
    InstantiationError,
    /// A required export (entry point or memory) is missing or ill-typed.
    MissingExport,
    /// Growing linear memory failed; both counts are in bytes.
    InsufficientMemory { req: u64, free: u64 },
    /// A guest pointer or length fell outside linear memory.
    OutOfBoundsAccess,
    /// The contract returned a result code outside the update domain.
    UnexpectedResult,
    /// The contract rejected the update.
    InvalidPutValue,
}

/// Relies on wasmer::Store::default: a fresh store of the default engine.
#[verifier::external_body]
fn store_default() -> wasmer::Store {
    wasmer::Store::default()
}

/// Relies on wasmer::Module::new: compiles bytecode, failing on malformed
/// input.
#[verifier::external_body]
fn module_compile(store: &wasmer::Store, bytes: &Vec<u8>) -> Option<wasmer::Module> {
    wasmer::Module::new(store, bytes.as_slice()).ok()
}

/// Relies on wasmer::Memory::new: a fresh linear memory of the given
/// minimal page count, unbounded and unshared.
#[verifier::external_body]
fn memory_new(store: &mut wasmer::Store, pages: u32) -> Option<wasmer::Memory> {
    wasmer::Memory::new(store, wasmer::MemoryType::new(wasmer::Pages(pages), None, false)).ok()
}

/// Relies on wasmer::Imports::new: an empty import object.
#[verifier::external_body]
fn imports_new() -> wasmer::Imports {
    wasmer::Imports::new()
}

/// Relies on wasmer::Imports::define: registers the memory as `env.memory`.
#[verifier::external_body]
fn imports_define_memory(imports: &mut wasmer::Imports, memory: &wasmer::Memory) {
    imports.define("env", "memory", memory.clone())
}

/// Relies on wasmer::Instance::new: instantiates a module with imports.
#[verifier::external_body]
fn instance_new(store: &mut wasmer::Store, module: &wasmer::Module, imports: &wasmer::Imports) -> Option<
    wasmer::Instance,
> {
    wasmer::Instance::new(store, module, imports).ok()
}

/// Relies on wasmer::Exports::get_memory: the instance's exported memory.
#[verifier::external_body]
fn instance_memory(instance: &wasmer::Instance) -> Option<wasmer::Memory> {
    instance.exports.get_memory("memory").ok().cloned()
}

/// Relies on wasmer::MemoryView::data_size: current memory extent in bytes.
#[verifier::external_body]
fn memory_data_size(store: &wasmer::Store, memory: &wasmer::Memory) -> u64 {
    memory.view(store).data_size()
}

/// Relies on wasmer::Memory::grow: extends memory by the given page count.
#[verifier::external_body]
fn memory_grow(store: &mut wasmer::Store, memory: &wasmer::Memory, delta_pages: u32) -> bool {
    memory.grow(store, wasmer::Pages(delta_pages)).is_ok()
}

/// Relies on wasmer::MemoryView::read: on success the buffer was filled
/// with exactly the requested bytes.
#[verifier::external_body]
fn memory_read(store: &wasmer::Store, memory: &wasmer::Memory, offset: u64, len: usize) -> (r:
    Option<Vec<u8>>)
    ensures
        r is Some ==> r.unwrap()@.len() == len,
{
    let mut buf = vec![0u8; len];
    match memory.view(store).read(offset, &mut buf) {
        Ok(()) => Some(buf),
        Err(_) => None,
    }
}

/// Relies on wasmer::MemoryView::write: copies the bytes into guest memory
/// at the offset, failing out of bounds.
#[verifier::external_body]
fn memory_write(store: &wasmer::Store, memory: &wasmer::Memory, offset: u64, data: &Vec<u8>) -> bool {
    memory.view(store).write(offset, data.as_slice()).is_ok()
}

/// Relies on wasmer::Exports::get_typed_function for the
/// `initiate_buffer(u32, i32) -> i64` export.
#[verifier::external_body]
fn get_func_init(store: &wasmer::Store, instance: &wasmer::Instance) -> Option<
    wasmer::TypedFunction<(u32, i32), i64>,
> {
    instance.exports.get_typed_function(store, "initiate_buffer").ok()
}

/// Relies on wasmer::TypedFunction::call; the guest may do anything, so
/// nothing is promised of the returned value.
#[verifier::external_body]
fn call_init(
    store: &mut wasmer::Store,
    func: &wasmer::TypedFunction<(u32, i32), i64>,
    cap: u32,
    host_owned: i32,
) -> Option<i64> {
    func.call(store, cap, host_owned).ok()
}

/// Relies on wasmer::Exports::get_typed_function for a
/// `(i64, i64) -> i32` entry point.
#[verifier::external_body]
fn get_func_2_i32(store: &wasmer::Store, instance: &wasmer::Instance, name: &str) -> Option<
    wasmer::TypedFunction<(i64, i64), i32>,
> {
    instance.exports.get_typed_function(store, name).ok()
}

/// Relies on wasmer::TypedFunction::call; nothing is promised of the result.
#[verifier::external_body]
fn call_2_i32(
    store: &mut wasmer::Store,
    func: &wasmer::TypedFunction<(i64, i64), i32>,
    a: i64,
    b: i64,
) -> Option<i32> {
    func.call(store, a, b).ok()
}

/// Relies on wasmer::Exports::get_typed_function for a
/// `(i64, i64) -> i64` entry point.
#[verifier::external_body]
fn get_func_2_i64(store: &wasmer::Store, instance: &wasmer::Instance, name: &str) -> Option<
    wasmer::TypedFunction<(i64, i64), i64>,
> {
    instance.exports.get_typed_function(store, name).ok()
}

/// Relies on wasmer::TypedFunction::call; nothing is promised of the result.
#[verifier::external_body]
fn call_2_i64(
    store: &mut wasmer::Store,
    func: &wasmer::TypedFunction<(i64, i64), i64>,
    a: i64,
    b: i64,
) -> Option<i64> {
    func.call(store, a, b).ok()
}

/// Relies on wasmer::Exports::get_typed_function for a
/// `(i64, i64, i64) -> i32` entry point.
#[verifier::external_body]
fn get_func_3_i32(store: &wasmer::Store, instance: &wasmer::Instance, name: &str) -> Option<
    wasmer::TypedFunction<(i64, i64, i64), i32>,
> {
    instance.exports.get_typed_function(store, name).ok()
}

/// Relies on wasmer::TypedFunction::call; nothing is promised of the result.
#[verifier::external_body]
fn call_3_i32(
    store: &mut wasmer::Store,
    func: &wasmer::TypedFunction<(i64, i64, i64), i32>,
    a: i64,
    b: i64,
    c: i64,
) -> Option<i32> {
    func.call(store, a, b, c).ok()
}

/// Relies on wasmer::Exports::get_typed_function for a
/// `(i64, i64, i64) -> i64` entry point.
#[verifier::external_body]
fn get_func_3_i64(store: &wasmer::Store, instance: &wasmer::Instance, name: &str) -> Option<
    wasmer::TypedFunction<(i64, i64, i64), i64>,
> {
    instance.exports.get_typed_function(store, name).ok()
}

/// Relies on wasmer::TypedFunction::call; nothing is promised of the result.
#[verifier::external_body]
fn call_3_i64(
    store: &mut wasmer::Store,
    func: &wasmer::TypedFunction<(i64, i64, i64), i64>,
    a: i64,
    b: i64,
    c: i64,
) -> Option<i64> {
    func.call(store, a, b, c).ok()
}

/// Whether `key` occurs among the cached module keys.
spec fn cached_in(keys: Seq<Vec<u8>>, key: Seq<u8>) -> bool {
    exists|i: int| 0 <= i < keys.len() && (#[trigger] keys[i])@ == key
}

/// A buffer builder read out of guest memory: the payload region's offset,
/// reserved size, written size and ownership flag.
pub struct BufferBuilder {
    pub start: u32,
    pub capacity: u32,
    pub size: u32,
    pub owner: u32,
}

/// Decode the four little-endian words of a builder record.
pub fn parse_builder(bytes: &Vec<u8>) -> (r: Option<BufferBuilder>)
    ensures
        r is Some <==> bytes@.len() == 16,
        r is Some ==> {
            let b = r.unwrap();
            &&& b.start == spec_u32_from_le(bytes@.subrange(0, 4))
            &&& b.capacity == spec_u32_from_le(bytes@.subrange(4, 8))
            &&& b.size == spec_u32_from_le(bytes@.subrange(8, 12))
            &&& b.owner == spec_u32_from_le(bytes@.subrange(12, 16))
        },
{
    if bytes.len() != 16 {
        return None;
    }
    Some(
        BufferBuilder {
            start: read_u32_le(bytes, 0),
            capacity: read_u32_le(bytes, 4),
            size: read_u32_le(bytes, 8),
            owner: read_u32_le(bytes, 12),
        },
    )
}

/// The number of whole pages needed to hold `bytes` bytes.
pub fn pages_for(bytes: u64) -> (r: u64)
    requires
        bytes <= u64::MAX - PAGE_SIZE,
    ensures
        r * PAGE_SIZE >= bytes,
        r == (bytes + PAGE_SIZE - 1) / (PAGE_SIZE as int),
{
    (bytes + PAGE_SIZE - 1) / PAGE_SIZE
}

/// The contract VM host: a compilation store, the content-addressed
/// contract store, a cache of compiled modules and, in host-memory mode,
/// the shared linear memory imported as `env.memory`.
pub struct Runtime {
    store: wasmer::Store,
    contracts: ContractStore,
    module_keys: Vec<Vec<u8>>,
    modules: Vec<wasmer::Module>,
    host_memory: Option<wasmer::Memory>,
}

impl Runtime {
    /// The module cache pairs each cached key with one compiled module.
    pub closed spec fn inv(self) -> bool {
        self.module_keys@.len() == self.modules@.len() && self.contracts.inv()
    }

    /// Whether a compiled module for `key` is cached.
    pub closed spec fn spec_cached(self, key: Seq<u8>) -> bool {
        cached_in(self.module_keys@, key)
    }

    /// The contract store this runtime reads bytecode from.
    pub closed spec fn spec_contracts(self) -> ContractStore {
        self.contracts
    }

    /// Build a runtime over a contract store. With `host_mem` a 20-page
    /// memory is created and later imported into every instance as
    /// `env.memory`; otherwise each instance must export its own memory.
    pub fn build(contracts: ContractStore, host_mem: bool) -> (r: Result<Runtime, ExecError>)
        requires
            contracts.inv(),
        ensures
            r matches Ok(rt) ==> rt.inv() && rt.spec_contracts() == contracts && (forall|k: Seq<
                u8,
            >| !rt.spec_cached(k)),
            !host_mem ==> r is Ok,
            r matches Err(e) ==> host_mem && e matches ExecError::InsufficientMemory { .. },
    {
        let mut store = store_default();
        let host_memory = if host_mem {
            match memory_new(&mut store, HOST_MEM_PAGES) {
                Some(m) => Some(m),
                None => {
                    return Err(
                        ExecError::InsufficientMemory {
                            req: (HOST_MEM_PAGES as u64) * PAGE_SIZE,
                            free: 0,
                        },
                    );
                },
            }
        } else {
            None
        };
        let rt = Runtime {
            store,
            contracts,
            module_keys: Vec::new(),
            modules: Vec::new(),
            host_memory,
        };
        proof {
            assert forall|k: Seq<u8>| !rt.spec_cached(k) by {
                if rt.spec_cached(k) {
                    let i = choose|i: int|
                        0 <= i < rt.module_keys@.len() && (#[trigger] rt.module_keys@[i])@ == k;
                }
            }
        }
        Ok(rt)
    }

    /// Index of the cached module for `key`.
    fn find_module(&self, key: &Vec<u8>) -> (r: Option<usize>)
        requires
            self.inv(),
        ensures
            r matches Some(i) ==> i < self.modules@.len() && self.spec_cached(key@),
            r is None ==> !self.spec_cached(key@),
    {
        let n = self.module_keys.len();
        let mut i: usize = 0;
        while i < n
            invariant
                self.inv(),
                n == self.module_keys@.len(),
                i <= n,
                forall|k: int| 0 <= k < i ==> (#[trigger] self.module_keys@[k])@ != key@,
            decreases n - i,
        {
            if bytes_eq(&self.module_keys[i], key) {
                return Some(i);
            }
            i = i + 1;
        }
        None
    }

    /// Fetch and compile the module for `key` unless it is already cached,
    /// and return its cache index. Fails with `ContractNotFound` exactly
    /// when the key is neither cached nor in the store, and with
    /// `CompileError` when the stored bytecode does not compile; a module is
    /// cached only after its bytecode loaded and compiled, so on failure the
    /// cache is unchanged.
    fn get_module(&mut self, key: &Vec<u8>) -> (r: Result<usize, ExecError>)
        requires
            old(self).inv(),
        ensures
            final(self).inv(),
            final(self).spec_contracts() == old(self).spec_contracts(),
            r matches Ok(i) ==> i < final(self).modules@.len() && final(self).spec_cached(key@),
            forall|k: Seq<u8>|
                #![trigger old(self).spec_cached(k)]
                #![trigger final(self).spec_cached(k)]
                old(self).spec_cached(k) ==> final(self).spec_cached(k),
            forall|k: Seq<u8>| #[trigger]
                final(self).spec_cached(k) ==> old(self).spec_cached(k) || k == key@,
            r is Err ==> forall|k: Seq<u8>|
                #![trigger old(self).spec_cached(k)]
                #![trigger final(self).spec_cached(k)]
                final(self).spec_cached(k) <==> old(self).spec_cached(k),
            r == Err::<usize, ExecError>(ExecError::ContractNotFound) <==> (!old(
                self,
            ).spec_cached(key@) && !old(self).spec_contracts().spec_contains(key@)),
            r matches Err(e) ==> (e is ContractNotFound || e is CompileError),
    {
        match self.find_module(key) {
            Some(i) => Ok(i),
            None => {
                let data = match self.contracts.fetch_contract(key) {
                    Some(d) => d,
                    None => {
                        return Err(ExecError::ContractNotFound);
                    },
                };
                let module = match module_compile(&self.store, &data) {
                    Some(m) => m,
                    None => {
                        return Err(ExecError::CompileError);
                    },
                };
                let ghost pre_keys = self.module_keys@;
                self.module_keys.push(copy_bytes(key));
                self.modules.push(module);
                proof {
                    assert(self.module_keys@[pre_keys.len() as int]@ == key@);
                    assert forall|k: Seq<u8>| #[trigger]
                        self.spec_cached(k) <==> (old(self).spec_cached(k) || k == key@) by {
                        if self.spec_cached(k) {
                            let i = choose|i: int|
                                0 <= i < self.module_keys@.len() && (
                                #[trigger] self.module_keys@[i])@ == k;
                            if i < pre_keys.len() {
                                assert(pre_keys[i]@ == k);
                            }
                        }
                        if old(self).spec_cached(k) {
                            let i = choose|i: int|
                                0 <= i < pre_keys.len() && (#[trigger] pre_keys[i])@ == k;
                            assert(self.module_keys@[i]@ == k);
                        }
                    }
                }
                Ok(self.modules.len() - 1)
            },
        }
    }

    /// Prepare a fresh instance for one call: instantiate the cached
    /// module, pick the call's memory (host-provided or guest-exported) and
    /// grow it to hold `req_bytes` payload bytes, failing with byte counts
    /// when the growth is denied: the requested count is the needed whole
    /// pages times the page size, the free count is engine-reported.
    fn prepare_call(&mut self, key: &Vec<u8>, req_bytes: u64) -> (r: Result<
        (wasmer::Instance, wasmer::Memory),
        ExecError,
    >)
        requires
            old(self).inv(),
            req_bytes <= u64::MAX - PAGE_SIZE,
        ensures
            final(self).inv(),
            final(self).spec_contracts() == old(self).spec_contracts(),
            forall|k: Seq<u8>|
                #![trigger old(self).spec_cached(k)]
                #![trigger final(self).spec_cached(k)]
                old(self).spec_cached(k) ==> final(self).spec_cached(k),
            r == Err::<(wasmer::Instance, wasmer::Memory), ExecError>(
                ExecError::ContractNotFound,
            ) <==> (!old(self).spec_cached(key@) && !old(self).spec_contracts().spec_contains(
                key@,
            )),
            r matches Err(ExecError::InsufficientMemory { req, free }) ==> req == ((req_bytes
                + PAGE_SIZE - 1) as int / (PAGE_SIZE as int)) * (PAGE_SIZE as int),
    {
        let idx = match self.get_module(key) {
            Ok(i) => i,
            Err(e) => {
                return Err(e);
            },
        };
        let mut imports = imports_new();
        match &self.host_memory {
            Some(m) => imports_define_memory(&mut imports, m),
            None => (),
        }
        let instance = match instance_new(&mut self.store, &self.modules[idx], &imports) {
            Some(i) => i,
            None => {
                return Err(ExecError::InstantiationError);
            },
        };
        let memory = match &self.host_memory {
            Some(m) => clone_memory(m),
            None => match instance_memory(&instance) {
                Some(m) => m,
                None => {
                    return Err(ExecError::MissingExport);
                },
            },
        };
        let req_pages = pages_for(req_bytes);
        proof {
            vstd::arithmetic::div_mod::lemma_fundamental_div_mod(
                req_bytes + PAGE_SIZE - 1,
                PAGE_SIZE as int,
            );
            assert(req_pages * PAGE_SIZE <= u64::MAX) by (nonlinear_arith)
                requires
                    req_bytes + PAGE_SIZE - 1 == (PAGE_SIZE as int) * ((req_bytes + PAGE_SIZE - 1)
                        / (PAGE_SIZE as int)) + (req_bytes + PAGE_SIZE - 1) % (PAGE_SIZE as int),
                    0 <= (req_bytes + PAGE_SIZE - 1) % (PAGE_SIZE as int),
                    req_pages == (req_bytes + PAGE_SIZE - 1) / (PAGE_SIZE as int),
                    req_bytes + PAGE_SIZE - 1 <= u64::MAX,
                    PAGE_SIZE == 65536,
            ;
        }
        let have = memory_data_size(&self.store, &memory);
        let have_pages = have / PAGE_SIZE;
        if have_pages < req_pages {
            let delta = req_pages - have_pages;
            let ok = delta <= u32::MAX as u64 && memory_grow(
                &mut self.store,
                &memory,
                delta as u32,
            );
            if !ok {
                return Err(
                    ExecError::InsufficientMemory { req: req_pages * PAGE_SIZE, free: have },
                );
            }
        }
        Ok((instance, memory))
    }

    /// Ship one payload into the guest: ask the guest for a buffer of the
    /// payload's size via `initiate_buffer`, read the builder it returns,
    /// check every bound, write the payload into the declared region and
    /// record its size in the builder. Returns the builder's address.
    fn init_buf(&mut self, instance: &wasmer::Instance, memory: &wasmer::Memory, data: &Vec<u8>) -> (r:
        Result<u64, ExecError>)
        requires
            old(self).inv(),
            data@.len() <= u32::MAX,
        ensures
            final(self).inv(),
            final(self).spec_contracts() == old(self).spec_contracts(),
            forall|k: Seq<u8>|
                #![trigger old(self).spec_cached(k)]
                #![trigger final(self).spec_cached(k)]
                final(self).spec_cached(k) <==> old(self).spec_cached(k),
            r matches Err(e) ==> (e is MissingExport || e is OutOfBoundsAccess),
    {
        let f = match get_func_init(&self.store, instance) {
            Some(f) => f,
            None => {
                return Err(ExecError::MissingExport);
            },
        };
        let ptr = match call_init(&mut self.store, &f, data.len() as u32, 1) {
            Some(p) => p,
            None => {
                return Err(ExecError::MissingExport);
            },
        };
        if ptr < 0 {
            return Err(ExecError::OutOfBoundsAccess);
        }
        let ptr = ptr as u64;
        let mem_size = memory_data_size(&self.store, memory);
        if mem_size < BUILDER_SIZE || ptr > mem_size - BUILDER_SIZE {
            return Err(ExecError::OutOfBoundsAccess);
        }
        let raw = match memory_read(&self.store, memory, ptr, 16) {
            Some(b) => b,
            None => {
                return Err(ExecError::OutOfBoundsAccess);
            },
        };
        let builder = match parse_builder(&raw) {
            Some(b) => b,
            None => {
                return Err(ExecError::OutOfBoundsAccess);
            },
        };
        let start = builder.start as u64;
        let len = data.len() as u64;
        if (builder.capacity as u64) < len || start > mem_size || mem_size - start < len {
            return Err(ExecError::OutOfBoundsAccess);
        }
        if !memory_write(&self.store, memory, start, data) {
            return Err(ExecError::OutOfBoundsAccess);
        }
        let mut size_bytes: Vec<u8> = Vec::new();
        crate::bytes::push_le_bytes(&mut size_bytes, len);
        let mut size_word: Vec<u8> = Vec::new();
        size_word.push(size_bytes[0]);
        size_word.push(size_bytes[1]);
        size_word.push(size_bytes[2]);
        size_word.push(size_bytes[3]);
        if !memory_write(&self.store, memory, ptr + 8, &size_word) {
            return Err(ExecError::OutOfBoundsAccess);
        }
        Ok(ptr)
    }

    /// Read the payload an output builder describes, checking every bound.
    fn read_out_buf(&self, memory: &wasmer::Memory, ptr: i64) -> (r: Result<Vec<u8>, ExecError>)
        requires
            self.inv(),
        ensures
            r matches Err(e) ==> e is OutOfBoundsAccess,
    {
        if ptr < 0 {
            return Err(ExecError::OutOfBoundsAccess);
        }
        let ptr = ptr as u64;
        let mem_size = memory_data_size(&self.store, memory);
        if mem_size < BUILDER_SIZE || ptr > mem_size - BUILDER_SIZE {
            return Err(ExecError::OutOfBoundsAccess);
        }
        let raw = match memory_read(&self.store, memory, ptr, 16) {
            Some(b) => b,
            None => {
                return Err(ExecError::OutOfBoundsAccess);
            },
        };
        let builder = match parse_builder(&raw) {
            Some(b) => b,
            None => {
                return Err(ExecError::OutOfBoundsAccess);
            },
        };
        if builder.size > builder.capacity {
            return Err(ExecError::OutOfBoundsAccess);
        }
        let start = builder.start as u64;
        let len = builder.size as u64;
        if start > mem_size || mem_size - start < len {
            return Err(ExecError::OutOfBoundsAccess);
        }
        match memory_read(&self.store, memory, start, builder.size as usize) {
            Some(b) => Ok(b),
            None => Err(ExecError::OutOfBoundsAccess),
        }
    }

    /// Ask the contract whether `state` is valid under `parameters`: the
    /// `validate_state` entry point's nonzero result.
    pub fn validate_state(&mut self, key: &Vec<u8>, parameters: &Parameters, state: &State) -> (r:
        Result<bool, ExecError>)
        requires
            old(self).inv(),
            parameters@.len() <= u32::MAX,
            state@.len() <= u32::MAX,
        ensures
            final(self).inv(),
            final(self).spec_contracts() == old(self).spec_contracts(),
            forall|k: Seq<u8>|
                #![trigger old(self).spec_cached(k)]
                #![trigger final(self).spec_cached(k)]
                old(self).spec_cached(k) ==> final(self).spec_cached(k),
            r == Err::<bool, ExecError>(ExecError::ContractNotFound) <==> (!old(self).spec_cached(
                key@,
            ) && !old(self).spec_contracts().spec_contains(key@)),
    {
        let req = parameters.size() as u64 + state.size() as u64;
        let (instance, memory) = match self.prepare_call(key, req) {
            Ok(x) => x,
            Err(e) => {
                return Err(e);
            },
        };
        let param_ptr = match self.init_buf(&instance, &memory, &parameters.data) {
            Ok(p) => p,
            Err(e) => {
                return Err(e);
            },
        };
        let state_ptr = match self.init_buf(&instance, &memory, &state.data) {
            Ok(p) => p,
            Err(e) => {
                return Err(e);
            },
        };
        let f = match get_func_2_i32(&self.store, &instance, "validate_state") {
            Some(f) => f,
            None => {
                return Err(ExecError::MissingExport);
            },
        };
        match call_2_i32(&mut self.store, &f, param_ptr as i64, state_ptr as i64) {
            Some(code) => Ok(code != 0),
            None => Err(ExecError::MissingExport),
        }
    }

    /// Ask the contract whether `delta` is valid under `parameters`: the
    /// `validate_delta` entry point's nonzero result.
    pub fn validate_delta(&mut self, key: &Vec<u8>, parameters: &Parameters, delta: &StateDelta) -> (r:
        Result<bool, ExecError>)
        requires
            old(self).inv(),
            parameters@.len() <= u32::MAX,
            delta@.len() <= u32::MAX,
        ensures
            final(self).inv(),
            final(self).spec_contracts() == old(self).spec_contracts(),
            forall|k: Seq<u8>|
                #![trigger old(self).spec_cached(k)]
                #![trigger final(self).spec_cached(k)]
                old(self).spec_cached(k) ==> final(self).spec_cached(k),
            r == Err::<bool, ExecError>(ExecError::ContractNotFound) <==> (!old(self).spec_cached(
                key@,
            ) && !old(self).spec_contracts().spec_contains(key@)),
    {
        let req = parameters.size() as u64 + delta.size() as u64;
        let (instance, memory) = match self.prepare_call(key, req) {
            Ok(x) => x,
            Err(e) => {
                return Err(e);
            },
        };
        let param_ptr = match self.init_buf(&instance, &memory, &parameters.data) {
            Ok(p) => p,
            Err(e) => {
                return Err(e);
            },
        };
        let delta_ptr = match self.init_buf(&instance, &memory, &delta.data) {
            Ok(p) => p,
            Err(e) => {
                return Err(e);
            },
        };
        let f = match get_func_2_i32(&self.store, &instance, "validate_delta") {
            Some(f) => f,
            None => {
                return Err(ExecError::MissingExport);
            },
        };
        match call_2_i32(&mut self.store, &f, param_ptr as i64, delta_ptr as i64) {
            Some(code) => Ok(code != 0),
            None => Err(ExecError::MissingExport),
        }
    }

    /// Apply `delta` to `state` through the `update_state` entry point. On
    /// a no-change verdict the input state is returned unchanged; on a
    /// valid update the state buffer's new contents are returned; an
    /// invalid update fails with `InvalidPutValue`, and a result code
    /// outside the domain with `UnexpectedResult`.
    pub fn update_state(
        &mut self,
        key: &Vec<u8>,
        parameters: &Parameters,
        state: &State,
        delta: &StateDelta,
    ) -> (r: Result<State, ExecError>)
        requires
            old(self).inv(),
            parameters@.len() <= u32::MAX,
            state@.len() <= u32::MAX,
            delta@.len() <= u32::MAX,
        ensures
            final(self).inv(),
            final(self).spec_contracts() == old(self).spec_contracts(),
            forall|k: Seq<u8>|
                #![trigger old(self).spec_cached(k)]
                #![trigger final(self).spec_cached(k)]
                old(self).spec_cached(k) ==> final(self).spec_cached(k),
            r == Err::<State, ExecError>(ExecError::ContractNotFound) <==> (!old(self).spec_cached(
                key@,
            ) && !old(self).spec_contracts().spec_contains(key@)),
    {
        let req = parameters.size() as u64 + state.size() as u64 + delta.size() as u64;
        let (instance, memory) = match self.prepare_call(key, req) {
            Ok(x) => x,
            Err(e) => {
                return Err(e);
            },
        };
        let param_ptr = match self.init_buf(&instance, &memory, &parameters.data) {
            Ok(p) => p,
            Err(e) => {
                return Err(e);
            },
        };
        let state_ptr = match self.init_buf(&instance, &memory, &state.data) {
            Ok(p) => p,
            Err(e) => {
                return Err(e);
            },
        };
        let delta_ptr = match self.init_buf(&instance, &memory, &delta.data) {
            Ok(p) => p,
            Err(e) => {
                return Err(e);
            },
        };
        let f = match get_func_2_i32(&self.store, &instance, "update_state") {
            Some(f) => f,
            None => {
                return Err(ExecError::MissingExport);
            },
        };
        let code = match call_2_i32(&mut self.store, &f, param_ptr as i64, delta_ptr as i64) {
            Some(c) => c,
            None => {
                return Err(ExecError::MissingExport);
            },
        };
        match decode_update_result(code) {
            Some(UpdateResult::ValidNoChange) => Ok(state.duplicate()),
            Some(UpdateResult::ValidUpdate) => {
                match self.read_out_buf(&memory, state_ptr as i64) {
                    Ok(bytes) => Ok(State { data: bytes }),
                    Err(e) => Err(e),
                }
            },
            Some(UpdateResult::Invalid) => Err(ExecError::InvalidPutValue),
            None => Err(ExecError::UnexpectedResult),
        }
    }

    /// Project `state` to a summary through the `summarize_state` entry
    /// point, which returns a pointer to an output buffer.
    pub fn summarize_state(&mut self, key: &Vec<u8>, parameters: &Parameters, state: &State) -> (r:
        Result<StateSummary, ExecError>)
        requires
            old(self).inv(),
            parameters@.len() <= u32::MAX,
            state@.len() <= u32::MAX,
        ensures
            final(self).inv(),
            final(self).spec_contracts() == old(self).spec_contracts(),
            forall|k: Seq<u8>|
                #![trigger old(self).spec_cached(k)]
                #![trigger final(self).spec_cached(k)]
                old(self).spec_cached(k) ==> final(self).spec_cached(k),
            r == Err::<StateSummary, ExecError>(ExecError::ContractNotFound) <==> (!old(self).spec_cached(
                key@,
            ) && !old(self).spec_contracts().spec_contains(key@)),
    {
        let req = parameters.size() as u64 + state.size() as u64;
        let (instance, memory) = match self.prepare_call(key, req) {
            Ok(x) => x,
            Err(e) => {
                return Err(e);
            },
        };
        let param_ptr = match self.init_buf(&instance, &memory, &parameters.data) {
            Ok(p) => p,
            Err(e) => {
                return Err(e);
            },
        };
        let state_ptr = match self.init_buf(&instance, &memory, &state.data) {
            Ok(p) => p,
            Err(e) => {
                return Err(e);
            },
        };
        let f = match get_func_2_i64(&self.store, &instance, "summarize_state") {
            Some(f) => f,
            None => {
                return Err(ExecError::MissingExport);
            },
        };
        let out = match call_2_i64(&mut self.store, &f, param_ptr as i64, state_ptr as i64) {
            Some(p) => p,
            None => {
                return Err(ExecError::MissingExport);
            },
        };
        match self.read_out_buf(&memory, out) {
            Ok(bytes) => Ok(StateSummary { data: bytes }),
            Err(e) => Err(e),
        }
    }

    /// Compute the delta a peer (described by `summary`) is missing,
    /// through the `get_state_delta` entry point.
    pub fn get_state_delta(
        &mut self,
        key: &Vec<u8>,
        parameters: &Parameters,
        state: &State,
        summary: &StateSummary,
    ) -> (r: Result<StateDelta, ExecError>)
        requires
            old(self).inv(),
            parameters@.len() <= u32::MAX,
            state@.len() <= u32::MAX,
            summary@.len() <= u32::MAX,
        ensures
            final(self).inv(),
            final(self).spec_contracts() == old(self).spec_contracts(),
            forall|k: Seq<u8>|
                #![trigger old(self).spec_cached(k)]
                #![trigger final(self).spec_cached(k)]
                old(self).spec_cached(k) ==> final(self).spec_cached(k),
            r == Err::<StateDelta, ExecError>(ExecError::ContractNotFound) <==> (!old(self).spec_cached(
                key@,
            ) && !old(self).spec_contracts().spec_contains(key@)),
    {
        let req = parameters.size() as u64 + state.size() as u64 + summary.size() as u64;
        let (instance, memory) = match self.prepare_call(key, req) {
            Ok(x) => x,
            Err(e) => {
                return Err(e);
            },
        };
        let param_ptr = match self.init_buf(&instance, &memory, &parameters.data) {
            Ok(p) => p,
            Err(e) => {
                return Err(e);
            },
        };
        let state_ptr = match self.init_buf(&instance, &memory, &state.data) {
            Ok(p) => p,
            Err(e) => {
                return Err(e);
            },
        };
        let summary_ptr = match self.init_buf(&instance, &memory, &summary.data) {
            Ok(p) => p,
            Err(e) => {
                return Err(e);
            },
        };
        let f = match get_func_3_i64(&self.store, &instance, "get_state_delta") {
            Some(f) => f,
            None => {
                return Err(ExecError::MissingExport);
            },
        };
        let out = match call_3_i64(
            &mut self.store,
            &f,
            param_ptr as i64,
            state_ptr as i64,
            summary_ptr as i64,
        ) {
            Some(p) => p,
            None => {
                return Err(ExecError::MissingExport);
            },
        };
        match self.read_out_buf(&memory, out) {
            Ok(bytes) => Ok(StateDelta { data: bytes }),
            Err(e) => Err(e),
        }
    }

    /// Bring `current_state` up to date against a peer's summary through
    /// the `update_state_from_summary` entry point; result decoding matches
    /// `update_state`.
    pub fn update_state_from_summary(
        &mut self,
        key: &Vec<u8>,
        parameters: &Parameters,
        current_state: &State,
        current_summary: &StateSummary,
    ) -> (r: Result<State, ExecError>)
        requires
            old(self).inv(),
            parameters@.len() <= u32::MAX,
            current_state@.len() <= u32::MAX,
            current_summary@.len() <= u32::MAX,
        ensures
            final(self).inv(),
            final(self).spec_contracts() == old(self).spec_contracts(),
            forall|k: Seq<u8>|
                #![trigger old(self).spec_cached(k)]
                #![trigger final(self).spec_cached(k)]
                old(self).spec_cached(k) ==> final(self).spec_cached(k),
            r == Err::<State, ExecError>(ExecError::ContractNotFound) <==> (!old(self).spec_cached(
                key@,
            ) && !old(self).spec_contracts().spec_contains(key@)),
    {
        let req = parameters.size() as u64 + current_state.size() as u64
            + current_summary.size() as u64;
        let (instance, memory) = match self.prepare_call(key, req) {
            Ok(x) => x,
            Err(e) => {
                return Err(e);
            },
        };
        let param_ptr = match self.init_buf(&instance, &memory, &parameters.data) {
            Ok(p) => p,
            Err(e) => {
                return Err(e);
            },
        };
        let state_ptr = match self.init_buf(&instance, &memory, &current_state.data) {
            Ok(p) => p,
            Err(e) => {
                return Err(e);
            },
        };
        let summary_ptr = match self.init_buf(&instance, &memory, &current_summary.data) {
            Ok(p) => p,
            Err(e) => {
                return Err(e);
            },
        };
        let f = match get_func_3_i32(&self.store, &instance, "update_state_from_summary") {
            Some(f) => f,
            None => {
                return Err(ExecError::MissingExport);
            },
        };
        let code = match call_3_i32(
            &mut self.store,
            &f,
            param_ptr as i64,
            state_ptr as i64,
            summary_ptr as i64,
        ) {
            Some(c) => c,
            None => {
                return Err(ExecError::MissingExport);
            },
        };
        match decode_update_result(code) {
            Some(UpdateResult::ValidNoChange) => Ok(current_state.duplicate()),
            Some(UpdateResult::ValidUpdate) => {
                match self.read_out_buf(&memory, state_ptr as i64) {
                    Ok(bytes) => Ok(State { data: bytes }),
                    Err(e) => Err(e),
                }
            },
            Some(UpdateResult::Invalid) => Err(ExecError::InvalidPutValue),
            None => Err(ExecError::UnexpectedResult),
        }
    }
}

/// Relies on wasmer::Memory::clone: another handle to the same memory.
#[verifier::external_body]
fn clone_memory(memory: &wasmer::Memory) -> wasmer::Memory {
    memory.clone()
}

} // verus!
