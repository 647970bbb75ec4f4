//! Parts of the implementation of the language gluon: type inference by substitution, resolving type
//! aliases, the import macro, and moving values between the host and the virtual machine.
pub mod acyclic;
pub mod alias;
pub mod api;
pub mod call_laws;
pub mod channel;
pub mod compound;
pub mod constraint_laws;
pub mod constraints;
pub mod deep_clone;
pub mod ending_laws;
pub mod fnv_map;
pub mod function;
pub mod generic;
pub mod globals;
pub mod host_type_laws;
pub mod import;
pub mod import_laws;
pub mod inference;
pub mod inference_laws;
pub mod level_laws;
pub mod machine;
pub mod marshal_laws;
pub mod match_laws;
pub mod opaque;
pub mod outcome_laws;
pub mod primitive;
pub mod record;
pub mod resolve;
pub mod resolve_laws;
pub mod rewrite;
pub mod roles;
pub mod scalar;
pub mod set_type_laws;
pub mod subs;
pub mod substitution;
pub mod substitution_laws;
pub mod symbol;
pub mod term;
pub mod text;
pub mod thread;
pub mod thread_laws;
pub mod type_cache;
pub mod type_laws;
pub mod types;
pub mod unify;
pub mod union_table;
pub mod value;
pub mod value_laws;
pub mod value_ref;
pub mod variable_laws;
