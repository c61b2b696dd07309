//! The texts that go into the sources of the emulator, and those that they take the place of.
use vstd::prelude::*;

verus! {

pub const FDT_MACHINE_FILE: &'static str = "hw/arm/arm_generic_fdt.c";

pub const PAGE_BITS: &'static str = "mc->minimum_page_bits = 12;";

pub const PAGE_BITS_AND_BUS: &'static str = "mc->minimum_page_bits = 12;\n\n    /* virtmcu: allow all SysBus devices via -device; arm-generic-fdt loads devices from DTB at runtime */\n    machine_class_allow_dynamic_sysbus_dev(mc, \"sys-bus-device\");";

pub const HW_BUILD_FILE: &'static str = "hw/meson.build";

pub const SUBDIR: &'static str = "subdir('virtmcu')";

pub const PATCH_MARK: &'static str = "virtmcu-patch";

pub const HOOKS_FILE: &'static str = "include/virtmcu/hooks.h";

pub const HOOKS_HEADER: &'static str = "/* Generated by virtmcu-cli */\n#ifndef VIRTMCU_HOOKS_H\n#define VIRTMCU_HOOKS_H\n\n#include \"hw/core/cpu.h\"\n#include \"net/net.h\"\n\n#if defined(_WIN32)\n#define VIRTMCU_EXPORT __declspec(dllexport)\n#else\n#define VIRTMCU_EXPORT __attribute__((visibility(\"default\")))\n#endif\n\ntypedef struct {\n    int64_t quantum_start_vtime_ns;\n    int64_t quantum_delta_ns;\n    int64_t absolute_vtime_ns;\n} VirtmcuQuantumTiming;\n\nVIRTMCU_EXPORT extern void (*virtmcu_tcg_quantum_hook)(CPUState *cpu);\nVIRTMCU_EXPORT extern int (*virtmcu_netdev_hook)(const Netdev *netdev, const char *name, NetClientState *peer, Error **errp);\nVIRTMCU_EXPORT extern void (*virtmcu_irq_hook)(void *opaque, int n, int level);\nVIRTMCU_EXPORT extern void (*virtmcu_cpu_halt_hook)(CPUState *cpu, bool halted);\n\nVIRTMCU_EXPORT void virtmcu_cpu_set_tcg_hook(void (*cb)(CPUState *cpu));\nVIRTMCU_EXPORT void virtmcu_cpu_set_halt_hook(void (*cb)(CPUState *cpu, bool halted));\nVIRTMCU_EXPORT void virtmcu_set_irq_hook(void (*cb)(void *opaque, int n, int level));\n\nVIRTMCU_EXPORT void virtmcu_kick_first_cpu_for_quantum(void);\nVIRTMCU_EXPORT bool virtmcu_vcpu_should_yield(void);\nVIRTMCU_EXPORT bool virtmcu_is_bql_locked(void);\nVIRTMCU_EXPORT void virtmcu_safe_bql_unlock(void);\nVIRTMCU_EXPORT void virtmcu_safe_bql_lock(void);\nVIRTMCU_EXPORT void virtmcu_safe_bql_force_unlock(void);\nVIRTMCU_EXPORT void virtmcu_safe_bql_force_lock(void);\nVIRTMCU_EXPORT void virtmcu_timer_kick(QEMUTimer *timer);\n\nVIRTMCU_EXPORT extern void (*virtmcu_get_quantum_timing)(VirtmcuQuantumTiming *timing);\n\n#endif\n";

pub const CPU_EXEC_FILE: &'static str = "accel/tcg/cpu-exec.c";

pub const INTERNAL_HEADER: &'static str = "#include \"internal-common.h\"";

pub const INTERNAL_AND_HOOKS: &'static str = "#include \"internal-common.h\"\n#include \"virtmcu/hooks.h\"";

pub const INTERRUPT_LOOP: &'static str = "while (!cpu_handle_interrupt(cpu, &last_tb)) {";

pub const INTERRUPT_LOOP_HOOKED: &'static str = "while (!cpu_handle_interrupt(cpu, &last_tb)) {\n        if (virtmcu_tcg_quantum_hook) { virtmcu_tcg_quantum_hook(cpu); }";

pub const CPUS_FILE: &'static str = "system/cpus.c";

pub const OSDEP_HEADER: &'static str = "#include \"qemu/osdep.h\"";

pub const OSDEP_AND_HOOKS: &'static str = "#include \"qemu/osdep.h\"\n#include \"virtmcu/hooks.h\"";

pub const NET_JSON_FILE: &'static str = "qapi/net.json";

pub const CHAR_JSON_FILE: &'static str = "qapi/char.json";

pub const QOM_JSON_FILE: &'static str = "qapi/qom.json";

pub const NET_SINCE: &'static str = "# @vhost-vdpa: since 5.1";

pub const NET_SINCE_VIRTMCU: &'static str = "# @vhost-vdpa: since 5.1\n#\n# @virtmcu: since 11.0";

pub const NET_NAME: &'static str = "'vhost-vdpa',";

pub const NET_NAME_VIRTMCU: &'static str = "'vhost-vdpa',\n            'virtmcu',";

pub const NET_OPTIONS: &'static str = "\n##\n# @NetdevVirtmcuOptions:\n#\n# virtmcu: Virtual clock network backend\n#\n# @node: The node ID\n# @transport: The transport to use (zenoh or unix) (optional)\n# @router: The zenoh router address (optional)\n# @topic: The topic to publish/subscribe to (optional)\n# @max-backlog: Maximum number of frames in the RX backlog\n#     (default: 256) (optional)\n#\n# Since: 11.0\n##\n{ 'struct': 'NetdevVirtmcuOptions',\n  'data': {\n    'node': 'str',\n    '*transport': 'str',\n    '*router': 'str',\n    '*topic': 'str',\n    '*max-backlog': 'size' } }\n\n##\n# @NetdevVmnetHostOptions:";

pub const NET_OPTIONS_NAME: &'static str = "NetdevVirtmcuOptions";

pub const NET_OPTIONS_PLACE: &'static str = "##\n# @NetdevVmnetHostOptions:";

pub const NET_BRANCH: &'static str = "'vhost-vdpa': 'NetdevVhostVDPAOptions',";

pub const NET_BRANCH_VIRTMCU: &'static str = "'vhost-vdpa': 'NetdevVhostVDPAOptions',\n    'virtmcu':    'NetdevVirtmcuOptions',";

pub const CHAR_OPTIONS: &'static str = "\n##\n# @ChardevVirtmcuOptions:\n#\n# virtmcu: Virtual clock chardev backend\n#\n# @node: The node ID\n# @transport: The transport to use (zenoh or unix) (optional)\n# @router: The zenoh router address (optional)\n# @topic: The topic to publish/subscribe to (optional)\n# @max-backlog: Maximum number of bytes in the RX backlog\n#     (default: 256) (optional)\n#\n# Since: 11.0\n##\n{ 'struct': 'ChardevVirtmcuOptions',\n  'base': 'ChardevCommon',\n  'data': {\n    'node': 'str',\n    '*transport': 'str',\n    '*router': 'str',\n    '*topic': 'str',\n    '*max-backlog': 'size' } }\n\n##\n# @ChardevVirtmcuWrapper:\n#\n# @data: Configuration info for virtmcu chardevs\n#\n# Since: 11.0\n##\n{ 'struct': 'ChardevVirtmcuWrapper',\n  'data': { 'data': 'ChardevVirtmcuOptions' } }\n\n\n##\n# @ChardevFileWrapper:";

pub const CHAR_OPTIONS_NAME: &'static str = "ChardevVirtmcuOptions";

pub const CHAR_OPTIONS_PLACE: &'static str = "##\n# @ChardevFileWrapper:";

pub const CHAR_BRANCH: &'static str = "'ringbuf': 'ChardevRingbufWrapper',";

pub const CHAR_BRANCH_VIRTMCU: &'static str = "'ringbuf': 'ChardevRingbufWrapper',\n            'virtmcu': 'ChardevVirtmcuWrapper',";

pub const CAN_OPTIONS: &'static str = "\n##\n# @CanHostVirtmcuProperties:\n#\n# Properties for can-host-virtmcu objects.\n#\n# @node: The node ID\n# @transport: The transport to use (zenoh or unix) (optional)\n# @router: The zenoh router address (optional)\n# @topic: The topic to publish/subscribe to\n#\n# @canbus: object ID of the can-bus object to connect to the host\n#     interface\n#\n# Since: 11.0\n##\n{ 'struct': 'CanHostVirtmcuProperties',\n  'data': { 'canbus': 'str',\n            'node': 'str',\n            '*transport': 'str',\n            '*router': 'str',\n            'topic': 'str' } }\n\n##\n# @ColoCompareProperties:";

pub const CAN_OPTIONS_NAME: &'static str = "CanHostVirtmcuProperties";

pub const CAN_OPTIONS_PLACE: &'static str = "##\n# @ColoCompareProperties:";

pub const CAN_NAME: &'static str = "    'colo-compare',";

pub const CAN_NAME_VIRTMCU: &'static str = "    'can-host-virtmcu',\n    'colo-compare',";

pub const CAN_BRANCH: &'static str = "      'colo-compare':               'ColoCompareProperties',";

pub const CAN_BRANCH_VIRTMCU: &'static str = "      'can-host-virtmcu':             'CanHostVirtmcuProperties',\n      'colo-compare':               'ColoCompareProperties',";

pub const NET_FILE: &'static str = "net/net.c";

pub const NET_INIT: &'static str = "#ifdef CONFIG_AF_XDP\n        [NET_CLIENT_DRIVER_AF_XDP]    = net_init_af_xdp,\n#endif";

pub const NET_INIT_VIRTMCU: &'static str = "#ifdef CONFIG_AF_XDP\n        [NET_CLIENT_DRIVER_AF_XDP]    = net_init_af_xdp,\n#endif\n        [NET_CLIENT_DRIVER_VIRTMCU]     = net_init_virtmcu,";

pub const CLIENTS_FILE: &'static str = "net/clients.h";

pub const NET_CLIENT: &'static str = "int net_init_socket(const Netdev *netdev, const char *name,";

pub const NET_CLIENT_VIRTMCU: &'static str = "int net_init_virtmcu(const Netdev *netdev, const char *name, NetClientState *peer, Error **errp);\nint net_init_socket(const Netdev *netdev, const char *name,";

pub const NET_BUILD_FILE: &'static str = "net/meson.build";

pub const NET_SOURCE: &'static str = "  'checksum.c',";

pub const NET_SOURCE_VIRTMCU: &'static str = "  'checksum.c',\n  'virtmcu.c',";

pub const NETDEV_FILE: &'static str = "net/virtmcu.c";

pub const NETDEV_SOURCE: &'static str = "#include \"qemu/osdep.h\"\n#include \"net/net.h\"\n#include \"qapi/qapi-types-net.h\"\n#include \"clients.h\"\n#include \"qapi/error.h\"\n#include \"virtmcu/hooks.h\"\n#include \"qemu/module.h\"\n#include \"qom/object.h\"\n\nint (*virtmcu_netdev_hook)(const Netdev *netdev, const char *name, NetClientState *peer, Error **errp) = NULL;\n\nint net_init_virtmcu(const Netdev *netdev, const char *name, NetClientState *peer, Error **errp)\n{\n    /* QEMU modules are loaded by object types. Try to load the module providing netdev */\n    if (!virtmcu_netdev_hook) {\n        module_load_qom(\"netdev\", NULL);\n        object_class_by_name(\"netdev\");\n    }\n\n    if (virtmcu_netdev_hook) {\n        return virtmcu_netdev_hook(netdev, name, peer, errp);\n    }\n\n    error_setg(errp, \"netdev module not loaded or hook not registered\");\n    return -1;\n}\n";

pub const CHARDEV_FILE: &'static str = "chardev/char.c";

pub const BACKLOG_OPTION: &'static str = ".name = \"max-backlog\",";

pub const SIZE_OPTION_PATTERN: &'static str = "\\.name\\s*=\\s*\"size\",";

pub const CHARDEV_OPTIONS: &'static str = ".name = \"node\",\n            .type = QEMU_OPT_STRING,\n        },{\n            .name = \"transport\",\n            .type = QEMU_OPT_STRING,\n        },{\n            .name = \"router\",\n            .type = QEMU_OPT_STRING,\n        },{\n            .name = \"topic\",\n            .type = QEMU_OPT_STRING,\n        },{\n            .name = \"max-backlog\",\n            .type = QEMU_OPT_SIZE,\n        },{\n            .name = \"baud-rate-ns\",\n            .type = QEMU_OPT_NUMBER,\n        },{\n            .name = \"size\",";

pub const FDT_UTIL_FILE: &'static str = "hw/core/fdt_generic_util.c";

pub const FDT_CELL: &'static str = "qemu_fdt_getprop_cell_inherited(fdti->fdt, node_path,\n                                            size_prop_name";

pub const FDT_CELL_PARENT: &'static str = "qemu_fdt_getprop_cell_inherited(fdti->fdt, pnp,\n                                            size_prop_name";

pub const FDT_BUS: &'static str = "        if (object_dynamic_cast(dev, TYPE_DEVICE)) {\n            Object *parent_bus = parent;\n            unsigned int depth = 0;\n\n            fdt_debug_np(\"bus parenting node\n\");\n            /* Look for an FDT ancestor that is a Bus.  */\n            while (parent_bus && !object_dynamic_cast(parent_bus, TYPE_BUS)) {";

pub const FDT_BUS_CHILD: &'static str = "        if (object_dynamic_cast(dev, TYPE_DEVICE)) {\n            Object *parent_bus = parent;\n            DeviceClass *dc = DEVICE_GET_CLASS(dev);\n            unsigned int depth = 0;\n\n            fdt_debug_np(\"bus parenting node\n\");\n\n            /* Task 21.7.1: Look for a child bus of the right type first */\n            if (parent && object_dynamic_cast(parent, TYPE_DEVICE)) {\n                DeviceState *ps = DEVICE(parent);\n                BusState *b;\n                QLIST_FOREACH(b, &ps->child_bus, sibling) {\n                    if (!dc->bus_type || object_dynamic_cast(OBJECT(b), dc->bus_type)) {\n                        parent_bus = OBJECT(b);\n                        break;\n                    }\n                }\n            }\n\n            /* Look for an FDT ancestor that is a Bus.  */\n            while (parent_bus && !object_dynamic_cast(parent_bus, TYPE_BUS)) {";

pub const FDT_WIDE: &'static str = "return be32_to_cpu(*((uint64_t *)p));";

pub const FDT_WIDE_SWAP: &'static str = "return be64_to_cpu(*((uint64_t *)p));";

pub const FDT_CLASS: &'static str = "        DeviceClass *dc = DEVICE_GET_CLASS(dev);\n        const char *short_name = strrchr(node_path, '/') + 1;";

pub const FDT_NO_CLASS: &'static str = "        const char *short_name = strrchr(node_path, '/') + 1;";

pub const FDT_REALIZE: &'static str = "            object_property_set_bool(OBJECT(dev), \"realized\", true,\n                                     &error_fatal);\n            if (dc->legacy_reset) {\n                qemu_register_reset((void (*)(void *))dc->legacy_reset,\n                                    dev);\n            }\n        }";

pub const FDT_REALIZE_ONLY: &'static str = "            object_property_set_bool(OBJECT(dev), \"realized\", true,\n                                     &error_fatal);\n        }";

pub const FDT_STEP: &'static str = "        prop_value += elem_len;";

pub const FDT_STEP_BYTES: &'static str = "        prop_value = (const uint8_t *)prop_value + elem_len;";

pub const FDT_PARENT: &'static str = "    } else if (parent) {\n        fdt_debug_np(\"parenting node\n\");\n        object_property_add_child(OBJECT(parent),\n                              strdup(strrchr(node_path, '/') + 1),\n                              OBJECT(dev));";

pub const FDT_PARENT_FREE: &'static str = "    } else if (parent) {\n        char *name;\n        fdt_debug_np(\"parenting node\n\");\n        name = g_strdup(strrchr(node_path, '/') + 1);\n        object_property_add_child(OBJECT(parent), name, OBJECT(dev));\n        g_free(name);";

pub const FDT_PATH: &'static str = "dp->node_path = strdup(node_path);";

pub const FDT_PATH_COPY: &'static str = "dp->node_path = g_strdup(node_path);";

pub const FDT_TYPE: &'static str = "        if (device_type) {\n            if (!fdt_init_qdev(node_path, fdti, device_type)) {\n                goto exit;\n            }\n        }";

pub const FDT_TYPE_OTHER: &'static str = "        if (device_type && strcmp(device_type, \"memory\") != 0 && strcmp(device_type, \"cpu\") != 0) {\n            fdt_init_qdev(node_path, fdti, device_type);\n        }";

pub const SYSBUS_FILE: &'static str = "hw/core/sysbus.c";

pub const SYSBUS_REG: &'static str = "static bool sysbus_parse_reg(FDTGenericMMap *obj, FDTGenericRegPropInfo reg,\n                             Error **errp)\n{\n    int i;\n\n    for (i = 0; i < reg.n; ++i) {\n        MemoryRegion *mr_parent = (MemoryRegion *)\n            object_dynamic_cast(reg.parents[i], TYPE_MEMORY_REGION);\n        if (!mr_parent) {\n            /* evil */\n            mr_parent = get_system_memory();\n        }\n        memory_region_add_subregion_overlap(mr_parent, reg.a[i],\n                                 sysbus_mmio_get_region(SYS_BUS_DEVICE(obj), i),\n                                 reg.p[i]);\n    }\n    return false;\n}";

pub const SYSBUS_REG_CHECKED: &'static str = "static bool sysbus_parse_reg(FDTGenericMMap *obj, FDTGenericRegPropInfo reg,\n                             Error **errp)\n{\n    int i;\n    SysBusDevice *sbd = (SysBusDevice *)object_dynamic_cast(OBJECT(obj), TYPE_SYS_BUS_DEVICE);\n\n    if (!sbd) {\n        return false;\n    }\n\n    for (i = 0; i < reg.n; ++i) {\n        MemoryRegion *mr_parent = (MemoryRegion *)\n            object_dynamic_cast(reg.parents[i], TYPE_MEMORY_REGION);\n        MemoryRegion *mr;\n\n        if (!mr_parent) {\n            /* evil */\n            mr_parent = get_system_memory();\n        }\n\n        mr = sysbus_mmio_get_region(sbd, i);\n        if (mr && !mr->container) {\n            memory_region_add_subregion_overlap(mr_parent, reg.a[i],\n                                     mr,\n                                     reg.p[i]);\n        }\n    }\n    return false;\n}";

pub const BUILD_FILE: &'static str = "meson.build";

pub const ADDRESS_ARGUMENT: &'static str = "add_project_arguments('-C', 'link-arg=-fsanitize=address', language: 'rust')";

pub const ADDRESS_GUARD: &'static str = "get_option('b_sanitize').contains('address')";

pub const ADDRESS_FLAGS: &'static str = "(\\s+)(qemu_cflags\\s+=\\s+\\['-fsanitize=address'\\]\\s+\\+\\s+qemu_cflags\n\\s+qemu_ldflags\\s+=\\s+\\['-fsanitize=address'\\]\\s+\\+\\s+qemu_ldflags)";

pub const ADDRESS_GUARDED: &'static str = "(if not get_option\\('b_sanitize'\\)\\.contains\\('address'\\)\n\\s+qemu_cflags.*\n\\s+qemu_ldflags.*\n\\s+endif)";

pub const UNDEFINED_ARGUMENT: &'static str = "add_project_arguments('-C', 'link-arg=-fsanitize=undefined', language: 'rust')";

pub const UNDEFINED_GUARD: &'static str = "get_option('b_sanitize').contains('undefined')";

pub const UNDEFINED_FLAGS: &'static str = "(\\s+)(qemu_cflags\\s+\\+=\\s+\\['-fsanitize=undefined'\\]\n\\s+qemu_ldflags\\s+\\+=\\s+\\['-fsanitize=undefined'\\])";

pub const UNDEFINED_GUARDED: &'static str = "(if not get_option\\('b_sanitize'\\)\\.contains\\('undefined'\\)\n\\s+qemu_cflags.*\n\\s+qemu_ldflags.*\n\\s+endif)";

} // verus!
