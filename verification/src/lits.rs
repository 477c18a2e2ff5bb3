//! Fixed byte strings that the resolver works with: directory names and
//! path fragments, each as a spec sequence and as an executable vector.
use vstd::prelude::*;

verus! {

/// The bytes of `/`.
pub open spec fn lit_sep_only() -> Seq<u8> {
    seq![47u8]
}

/// The bytes of `/`, as a vector.
pub fn sep_only() -> (r: Vec<u8>)
    ensures
        r@ == lit_sep_only(),
{
    vec![47u8]
}

/// The bytes of `usr/local`.
pub open spec fn lit_usr_local() -> Seq<u8> {
    seq![117u8, 115u8, 114u8, 47u8, 108u8, 111u8, 99u8, 97u8, 108u8]
}

/// The bytes of `usr/local`, as a vector.
pub fn usr_local() -> (r: Vec<u8>)
    ensures
        r@ == lit_usr_local(),
{
    vec![117u8, 115u8, 114u8, 47u8, 108u8, 111u8, 99u8, 97u8, 108u8]
}

/// The bytes of `usr`.
pub open spec fn lit_usr() -> Seq<u8> {
    seq![117u8, 115u8, 114u8]
}

/// The bytes of `usr`, as a vector.
pub fn usr() -> (r: Vec<u8>)
    ensures
        r@ == lit_usr(),
{
    vec![117u8, 115u8, 114u8]
}

/// The bytes of `lib64`.
pub open spec fn lit_lib64() -> Seq<u8> {
    seq![108u8, 105u8, 98u8, 54u8, 52u8]
}

/// The bytes of `lib64`, as a vector.
pub fn lib64() -> (r: Vec<u8>)
    ensures
        r@ == lit_lib64(),
{
    vec![108u8, 105u8, 98u8, 54u8, 52u8]
}

/// The bytes of `lib`.
pub open spec fn lit_lib() -> Seq<u8> {
    seq![108u8, 105u8, 98u8]
}

/// The bytes of `lib`, as a vector.
pub fn lib() -> (r: Vec<u8>)
    ensures
        r@ == lit_lib(),
{
    vec![108u8, 105u8, 98u8]
}

/// The bytes of `lib/modules`.
pub open spec fn lit_lib_modules() -> Seq<u8> {
    seq![108u8, 105u8, 98u8, 47u8, 109u8, 111u8, 100u8, 117u8, 108u8, 101u8, 115u8]
}

/// The bytes of `lib/modules`, as a vector.
pub fn lib_modules() -> (r: Vec<u8>)
    ensures
        r@ == lit_lib_modules(),
{
    vec![108u8, 105u8, 98u8, 47u8, 109u8, 111u8, 100u8, 117u8, 108u8, 101u8, 115u8]
}

/// The bytes of `drivers/modules`.
pub open spec fn lit_drivers_modules() -> Seq<u8> {
    seq![100u8, 114u8, 105u8, 118u8, 101u8, 114u8, 115u8, 47u8, 109u8, 111u8, 100u8, 117u8, 108u8, 101u8, 115u8]
}

/// The bytes of `drivers/modules`, as a vector.
pub fn drivers_modules() -> (r: Vec<u8>)
    ensures
        r@ == lit_drivers_modules(),
{
    vec![100u8, 114u8, 105u8, 118u8, 101u8, 114u8, 115u8, 47u8, 109u8, 111u8, 100u8, 117u8, 108u8, 101u8, 115u8]
}

/// The bytes of `lib/firmware`.
pub open spec fn lit_lib_firmware() -> Seq<u8> {
    seq![108u8, 105u8, 98u8, 47u8, 102u8, 105u8, 114u8, 109u8, 119u8, 97u8, 114u8, 101u8]
}

/// The bytes of `lib/firmware`, as a vector.
pub fn lib_firmware() -> (r: Vec<u8>)
    ensures
        r@ == lit_lib_firmware(),
{
    vec![108u8, 105u8, 98u8, 47u8, 102u8, 105u8, 114u8, 109u8, 119u8, 97u8, 114u8, 101u8]
}

/// The bytes of `drivers/hardware/firmwares`.
pub open spec fn lit_drivers_firmwares() -> Seq<u8> {
    seq![100u8, 114u8, 105u8, 118u8, 101u8, 114u8, 115u8, 47u8, 104u8, 97u8, 114u8, 100u8, 119u8, 97u8, 114u8, 101u8, 47u8, 102u8, 105u8, 114u8, 109u8, 119u8, 97u8, 114u8, 101u8, 115u8]
}

/// The bytes of `drivers/hardware/firmwares`, as a vector.
pub fn drivers_firmwares() -> (r: Vec<u8>)
    ensures
        r@ == lit_drivers_firmwares(),
{
    vec![100u8, 114u8, 105u8, 118u8, 101u8, 114u8, 115u8, 47u8, 104u8, 97u8, 114u8, 100u8, 119u8, 97u8, 114u8, 101u8, 47u8, 102u8, 105u8, 114u8, 109u8, 119u8, 97u8, 114u8, 101u8, 115u8]
}

/// The bytes of `boot`.
pub open spec fn lit_boot() -> Seq<u8> {
    seq![98u8, 111u8, 111u8, 116u8]
}

/// The bytes of `boot`, as a vector.
pub fn boot() -> (r: Vec<u8>)
    ensures
        r@ == lit_boot(),
{
    vec![98u8, 111u8, 111u8, 116u8]
}

/// The bytes of `kernel`.
pub open spec fn lit_kernel() -> Seq<u8> {
    seq![107u8, 101u8, 114u8, 110u8, 101u8, 108u8]
}

/// The bytes of `kernel`, as a vector.
pub fn kernel() -> (r: Vec<u8>)
    ensures
        r@ == lit_kernel(),
{
    vec![107u8, 101u8, 114u8, 110u8, 101u8, 108u8]
}

/// The bytes of `bin`.
pub open spec fn lit_bin() -> Seq<u8> {
    seq![98u8, 105u8, 110u8]
}

/// The bytes of `bin`, as a vector.
pub fn bin() -> (r: Vec<u8>)
    ensures
        r@ == lit_bin(),
{
    vec![98u8, 105u8, 110u8]
}

/// The bytes of `sbin`.
pub open spec fn lit_sbin() -> Seq<u8> {
    seq![115u8, 98u8, 105u8, 110u8]
}

/// The bytes of `sbin`, as a vector.
pub fn sbin() -> (r: Vec<u8>)
    ensures
        r@ == lit_sbin(),
{
    vec![115u8, 98u8, 105u8, 110u8]
}

/// The bytes of `opt`.
pub open spec fn lit_opt() -> Seq<u8> {
    seq![111u8, 112u8, 116u8]
}

/// The bytes of `opt`, as a vector.
pub fn opt() -> (r: Vec<u8>)
    ensures
        r@ == lit_opt(),
{
    vec![111u8, 112u8, 116u8]
}

/// The bytes of `var`.
pub open spec fn lit_var() -> Seq<u8> {
    seq![118u8, 97u8, 114u8]
}

/// The bytes of `var`, as a vector.
pub fn var() -> (r: Vec<u8>)
    ensures
        r@ == lit_var(),
{
    vec![118u8, 97u8, 114u8]
}

/// The bytes of `etc`.
pub open spec fn lit_etc() -> Seq<u8> {
    seq![101u8, 116u8, 99u8]
}

/// The bytes of `etc`, as a vector.
pub fn etc() -> (r: Vec<u8>)
    ensures
        r@ == lit_etc(),
{
    vec![101u8, 116u8, 99u8]
}

/// The bytes of `overlayer`.
pub open spec fn lit_overlayer() -> Seq<u8> {
    seq![111u8, 118u8, 101u8, 114u8, 108u8, 97u8, 121u8, 101u8, 114u8]
}

/// The bytes of `overlayer`, as a vector.
pub fn overlayer() -> (r: Vec<u8>)
    ensures
        r@ == lit_overlayer(),
{
    vec![111u8, 118u8, 101u8, 114u8, 108u8, 97u8, 121u8, 101u8, 114u8]
}

/// The bytes of `syshub`.
pub open spec fn lit_syshub() -> Seq<u8> {
    seq![115u8, 121u8, 115u8, 104u8, 117u8, 98u8]
}

/// The bytes of `syshub`, as a vector.
pub fn syshub() -> (r: Vec<u8>)
    ensures
        r@ == lit_syshub(),
{
    vec![115u8, 121u8, 115u8, 104u8, 117u8, 98u8]
}

/// The bytes of `syshub/x86_64-zainium-linux-musl`.
pub open spec fn lit_syshub_musl() -> Seq<u8> {
    seq![115u8, 121u8, 115u8, 104u8, 117u8, 98u8, 47u8, 120u8, 56u8, 54u8, 95u8, 54u8, 52u8, 45u8, 122u8, 97u8, 105u8, 110u8, 105u8, 117u8, 109u8, 45u8, 108u8, 105u8, 110u8, 117u8, 120u8, 45u8, 109u8, 117u8, 115u8, 108u8]
}

/// The bytes of `syshub/x86_64-zainium-linux-musl`, as a vector.
pub fn syshub_musl() -> (r: Vec<u8>)
    ensures
        r@ == lit_syshub_musl(),
{
    vec![115u8, 121u8, 115u8, 104u8, 117u8, 98u8, 47u8, 120u8, 56u8, 54u8, 95u8, 54u8, 52u8, 45u8, 122u8, 97u8, 105u8, 110u8, 105u8, 117u8, 109u8, 45u8, 108u8, 105u8, 110u8, 117u8, 120u8, 45u8, 109u8, 117u8, 115u8, 108u8]
}

/// The bytes of `zexlib/union`.
pub open spec fn lit_zexlib_union() -> Seq<u8> {
    seq![122u8, 101u8, 120u8, 108u8, 105u8, 98u8, 47u8, 117u8, 110u8, 105u8, 111u8, 110u8]
}

/// The bytes of `zexlib/union`, as a vector.
pub fn zexlib_union() -> (r: Vec<u8>)
    ensures
        r@ == lit_zexlib_union(),
{
    vec![122u8, 101u8, 120u8, 108u8, 105u8, 98u8, 47u8, 117u8, 110u8, 105u8, 111u8, 110u8]
}

/// The bytes of `zaisys`.
pub open spec fn lit_zaisys() -> Seq<u8> {
    seq![122u8, 97u8, 105u8, 115u8, 121u8, 115u8]
}

/// The bytes of `zaisys`, as a vector.
pub fn zaisys() -> (r: Vec<u8>)
    ensures
        r@ == lit_zaisys(),
{
    vec![122u8, 97u8, 105u8, 115u8, 121u8, 115u8]
}

/// The bytes of `/usr`.
pub open spec fn lit_abs_usr() -> Seq<u8> {
    seq![47u8, 117u8, 115u8, 114u8]
}

/// The bytes of `/usr`, as a vector.
pub fn abs_usr() -> (r: Vec<u8>)
    ensures
        r@ == lit_abs_usr(),
{
    vec![47u8, 117u8, 115u8, 114u8]
}

/// The bytes of `local`.
pub open spec fn lit_local() -> Seq<u8> {
    seq![108u8, 111u8, 99u8, 97u8, 108u8]
}

/// The bytes of `home`.
pub open spec fn lit_home() -> Seq<u8> {
    seq![104u8, 111u8, 109u8, 101u8]
}

/// The bytes of `tmp`.
pub open spec fn lit_tmp() -> Seq<u8> {
    seq![116u8, 109u8, 112u8]
}


} // verus!
