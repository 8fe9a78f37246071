//! The LLVM backend: its types, and the calls that the code generator makes
//! into it.
//!
//! Nothing here is proved. The values of the backend are opaque handles, so
//! no function here claims anything of what the backend returns or does; the
//! one contract is the demand of [`Compiler::build_global_string_ptr`], which
//! Verus takes on trust.

use crate::codegen::Compiler;
use inkwell::basic_block::BasicBlock;
use inkwell::builder::Builder;
use inkwell::context::Context;
use inkwell::execution_engine::ExecutionEngine;
use inkwell::module::{Linkage, Module};
use inkwell::types::{BasicMetadataTypeEnum, FunctionType, IntType, PointerType};
use inkwell::values::{
    BasicMetadataValueEnum, FunctionValue, GlobalValue, IntValue, PointerValue,
};
use inkwell::AddressSpace;
use vstd::prelude::*;

verus! {

/// `inkwell::context::Context`: owns the types and constants of one code
/// generation.
#[verifier::external_type_specification]
#[verifier::external_body]
pub struct ExContext(Context);

/// `inkwell::builder::Builder`: appends instructions at its insertion point.
#[verifier::external_type_specification]
#[verifier::external_body]
pub struct ExBuilder<'ctx>(Builder<'ctx>);

/// `inkwell::module::Module`: the functions and global constants generated.
#[verifier::external_type_specification]
#[verifier::external_body]
pub struct ExModule<'ctx>(Module<'ctx>);

/// `inkwell::execution_engine::ExecutionEngine`: runs a module in process.
#[verifier::external_type_specification]
#[verifier::external_body]
pub struct ExExecutionEngine<'ctx>(ExecutionEngine<'ctx>);

/// `inkwell::basic_block::BasicBlock`: a handle to a block of a function.
#[verifier::external_type_specification]
#[verifier::external_body]
pub struct ExBasicBlock<'ctx>(BasicBlock<'ctx>);

/// `inkwell::module::Linkage`: how a function is visible to the linker.
#[verifier::external_type_specification]
#[verifier::external_body]
pub struct ExLinkage(Linkage);

/// `inkwell::AddressSpace`: the address space of a pointer.
#[verifier::external_type_specification]
#[verifier::external_body]
pub struct ExAddressSpace(AddressSpace);

/// `inkwell::types::IntType`: a handle to an integer type.
#[verifier::external_type_specification]
#[verifier::external_body]
pub struct ExIntType<'ctx>(IntType<'ctx>);

/// `inkwell::types::PointerType`: a handle to a pointer type.
#[verifier::external_type_specification]
#[verifier::external_body]
pub struct ExPointerType<'ctx>(PointerType<'ctx>);

/// `inkwell::types::FunctionType`: a handle to the type of a function.
#[verifier::external_type_specification]
#[verifier::external_body]
pub struct ExFunctionType<'ctx>(FunctionType<'ctx>);

/// `inkwell::types::BasicMetadataTypeEnum`: a type in the form that a
/// function type takes its parameters in.
#[verifier::external_type_specification]
#[verifier::external_body]
pub struct ExBasicMetadataTypeEnum<'ctx>(BasicMetadataTypeEnum<'ctx>);

/// `inkwell::values::IntValue`: a handle to an integer value of the backend.
#[verifier::external_type_specification]
#[verifier::external_body]
pub struct ExIntValue<'ctx>(IntValue<'ctx>);

/// `inkwell::values::PointerValue`: a handle to a pointer value.
#[verifier::external_type_specification]
#[verifier::external_body]
pub struct ExPointerValue<'ctx>(PointerValue<'ctx>);

/// `inkwell::values::GlobalValue`: a handle to a global of a module.
#[verifier::external_type_specification]
#[verifier::external_body]
pub struct ExGlobalValue<'ctx>(GlobalValue<'ctx>);

/// `inkwell::values::FunctionValue`: a handle to a function of a module.
#[verifier::external_type_specification]
#[verifier::external_body]
pub struct ExFunctionValue<'ctx>(FunctionValue<'ctx>);

/// `inkwell::values::BasicMetadataValueEnum`: a value in the form that a call
/// takes its arguments in.
#[verifier::external_type_specification]
#[verifier::external_body]
pub struct ExBasicMetadataValueEnum<'ctx>(BasicMetadataValueEnum<'ctx>);

/// `Context::i32_type`: the type of 32-bit integers.
#[verifier::external_body]
pub(crate) fn i32_type<'ctx>(context: &'ctx Context) -> IntType<'ctx> {
    context.i32_type()
}

/// `Context::i8_type`: the type of bytes.
#[verifier::external_body]
pub(crate) fn i8_type<'ctx>(context: &'ctx Context) -> IntType<'ctx> {
    context.i8_type()
}

/// `IntType::const_int`, with sign extension: the constant `n` of the type.
/// The backend takes the constant as 64 bits and keeps as many low bits as
/// the type has, so for a type of 32 bits every `n` is itself.
#[verifier::external_body]
pub(crate) fn const_int<'ctx>(ty: IntType<'ctx>, n: i32) -> IntValue<'ctx> {
    ty.const_int(n as u64, true)
}

/// `AddressSpace::default`: the address space zero.
#[verifier::external_body]
pub(crate) fn default_address_space() -> AddressSpace {
    AddressSpace::default()
}

/// `Linkage::External`: the linkage of a function that is visible outside
/// its module.
#[verifier::external_body]
pub(crate) fn external_linkage() -> Linkage {
    Linkage::External
}

/// `IntType::ptr_type`: the type of pointers to `ty` in `space`.
#[verifier::external_body]
pub(crate) fn ptr_type<'ctx>(ty: IntType<'ctx>, space: AddressSpace) -> PointerType<'ctx> {
    ty.ptr_type(space)
}

/// `From<PointerType>` for `BasicMetadataTypeEnum`: the pointer type as the
/// type of a parameter.
#[verifier::external_body]
pub(crate) fn pointer_parameter<'ctx>(ty: PointerType<'ctx>) -> BasicMetadataTypeEnum<'ctx> {
    ty.into()
}

/// `IntType::fn_type`: the type of the functions that give a `result` and
/// take `parameters`, and any further arguments where `variadic`.
#[verifier::external_body]
pub(crate) fn fn_type<'ctx>(
    result: IntType<'ctx>,
    parameters: &Vec<BasicMetadataTypeEnum<'ctx>>,
    variadic: bool,
) -> FunctionType<'ctx> {
    result.fn_type(parameters, variadic)
}

/// `Module::add_function`: adds a function of the given name, type and
/// linkage to the module. Where the name is taken, the backend alters it.
#[verifier::external_body]
pub(crate) fn add_function<'ctx>(
    module: &Module<'ctx>,
    name: &str,
    ty: FunctionType<'ctx>,
    linkage: Option<Linkage>,
) -> FunctionValue<'ctx> {
    module.add_function(name, ty, linkage)
}

/// `FunctionValue::set_call_conventions`: sets the calling convention of the
/// function, by its number.
#[verifier::external_body]
pub(crate) fn set_call_conventions<'ctx>(function: FunctionValue<'ctx>, convention: u32) {
    function.set_call_conventions(convention)
}

/// `Module::get_function`: the function of the module with the given name,
/// if there is one.
#[verifier::external_body]
pub(crate) fn get_function<'ctx>(module: &Module<'ctx>, name: &str) -> Option<
    FunctionValue<'ctx>,
> {
    module.get_function(name)
}

/// `Context::append_basic_block`: a new block, named `name`, at the end of
/// `function`.
#[verifier::external_body]
pub(crate) fn append_basic_block<'ctx>(
    context: &'ctx Context,
    function: FunctionValue<'ctx>,
    name: &str,
) -> BasicBlock<'ctx> {
    context.append_basic_block(function, name)
}

/// `Builder::position_at_end`: places the builder at the end of `block`.
#[verifier::external_body]
pub(crate) fn position_at_end<'ctx>(builder: &Builder<'ctx>, block: BasicBlock<'ctx>) {
    builder.position_at_end(block)
}

/// `Builder::build_return`: appends the instruction that returns `value`.
#[verifier::external_body]
pub(crate) fn build_return<'ctx>(builder: &Builder<'ctx>, value: IntValue<'ctx>) {
    builder.build_return(Some(&value));
}

/// `Builder::build_int_add`: the sum of two integers; `name` names the
/// result.
#[verifier::external_body]
pub(crate) fn build_int_add<'ctx>(
    builder: &Builder<'ctx>,
    lhs: IntValue<'ctx>,
    rhs: IntValue<'ctx>,
    name: &str,
) -> IntValue<'ctx> {
    builder.build_int_add(lhs, rhs, name)
}

/// `Builder::build_int_sub`: the difference of two integers; `name` names
/// the result.
#[verifier::external_body]
pub(crate) fn build_int_sub<'ctx>(
    builder: &Builder<'ctx>,
    lhs: IntValue<'ctx>,
    rhs: IntValue<'ctx>,
    name: &str,
) -> IntValue<'ctx> {
    builder.build_int_sub(lhs, rhs, name)
}

/// `Builder::build_int_mul`: the product of two integers; `name` names the
/// result.
#[verifier::external_body]
pub(crate) fn build_int_mul<'ctx>(
    builder: &Builder<'ctx>,
    lhs: IntValue<'ctx>,
    rhs: IntValue<'ctx>,
    name: &str,
) -> IntValue<'ctx> {
    builder.build_int_mul(lhs, rhs, name)
}

/// `Builder::build_int_signed_div`: the signed quotient of two integers;
/// `name` names the result. A zero divisor is not looked for here: it is the
/// generated program that divides.
#[verifier::external_body]
pub(crate) fn build_int_signed_div<'ctx>(
    builder: &Builder<'ctx>,
    lhs: IntValue<'ctx>,
    rhs: IntValue<'ctx>,
    name: &str,
) -> IntValue<'ctx> {
    builder.build_int_signed_div(lhs, rhs, name)
}

/// `GlobalValue::as_pointer_value`: the global as a pointer.
#[verifier::external_body]
pub(crate) fn as_pointer_value<'ctx>(global: GlobalValue<'ctx>) -> PointerValue<'ctx> {
    global.as_pointer_value()
}

/// `From<PointerValue>` for `BasicMetadataValueEnum`: the pointer as an
/// argument of a call.
#[verifier::external_body]
pub(crate) fn pointer_argument<'ctx>(pointer: PointerValue<'ctx>) -> BasicMetadataValueEnum<'ctx> {
    pointer.into()
}

/// `From<IntValue>` for `BasicMetadataValueEnum`: the integer as an argument
/// of a call.
#[verifier::external_body]
pub(crate) fn int_argument<'ctx>(value: IntValue<'ctx>) -> BasicMetadataValueEnum<'ctx> {
    value.into()
}

/// `Builder::build_call`: appends a call of `function` with `arguments`;
/// `name` names the result.
#[verifier::external_body]
pub(crate) fn build_call<'ctx>(
    builder: &Builder<'ctx>,
    function: FunctionValue<'ctx>,
    arguments: &Vec<BasicMetadataValueEnum<'ctx>>,
    name: &str,
) {
    builder.build_call(function, arguments, name);
}

impl<'a, 'ctx> Compiler<'a, 'ctx> {
    /// `Builder::build_global_string_ptr`: stores `text` as a constant of the
    /// module, named `name`. The backend finds the module through the
    /// builder's insertion point and crashes on a builder that has none: the
    /// call is for a generator whose entry block was built.
    #[verifier::external_body]
    pub(crate) fn build_global_string_ptr(&self, text: &str, name: &str) -> GlobalValue<'ctx>
        requires
            self.entry_built(),
    {
        self.builder.build_global_string_ptr(text, name)
    }
}

} // verus!
