//! What hosts, containers and processes have in common.
use vstd::prelude::*;

use crate::container::{Container, ContainerState};
use crate::host::Host;
use crate::process::{Process, ProcessState};

verus! {

/// Kind of monitored resource.
#[derive(Debug, Clone, Copy, PartialEq, Eq)]
pub enum ResourceType {
    Host,
    Container,
    Process,
}

/// A resource with a name, a CPU share (basis points) and used memory.
pub trait MonitoredResource {
    spec fn kind(&self) -> ResourceType;

    spec fn label(&self) -> Seq<char>;

    spec fn cpu_share(&self) -> Option<u64>;

    spec fn memory_used(&self) -> Option<u64>;

    spec fn healthy(&self) -> bool;

    fn resource_type(&self) -> (r: ResourceType)
        ensures
            r == self.kind(),
    ;

    fn name(&self) -> (r: &str)
        ensures
            r@ == self.label(),
    ;

    fn cpu_bp(&self) -> (r: Option<u64>)
        ensures
            r == self.cpu_share(),
    ;

    fn memory_bytes(&self) -> (r: Option<u64>)
        ensures
            r == self.memory_used(),
    ;

    fn is_healthy(&self) -> (r: bool)
        ensures
            r == self.healthy(),
    ;
}

impl MonitoredResource for Host {
    open spec fn kind(&self) -> ResourceType {
        ResourceType::Host
    }

    open spec fn label(&self) -> Seq<char> {
        self.hostname@
    }

    open spec fn cpu_share(&self) -> Option<u64> {
        Some(self.cpu.usage_bp)
    }

    open spec fn memory_used(&self) -> Option<u64> {
        Some(self.memory.used_bytes)
    }

    open spec fn healthy(&self) -> bool {
        true
    }

    fn resource_type(&self) -> (r: ResourceType) {
        ResourceType::Host
    }

    fn name(&self) -> (r: &str) {
        self.hostname.as_str()
    }

    fn cpu_bp(&self) -> (r: Option<u64>) {
        Some(self.cpu.usage_bp)
    }

    fn memory_bytes(&self) -> (r: Option<u64>) {
        Some(self.memory.used_bytes)
    }

    fn is_healthy(&self) -> (r: bool) {
        true
    }
}

impl MonitoredResource for Container {
    open spec fn kind(&self) -> ResourceType {
        ResourceType::Container
    }

    open spec fn label(&self) -> Seq<char> {
        self.name@
    }

    open spec fn cpu_share(&self) -> Option<u64> {
        Some(self.cpu.usage_bp)
    }

    open spec fn memory_used(&self) -> Option<u64> {
        Some(self.memory.used_bytes)
    }

    /// A container is healthy while it runs.
    open spec fn healthy(&self) -> bool {
        self.state == ContainerState::Running
    }

    fn resource_type(&self) -> (r: ResourceType) {
        ResourceType::Container
    }

    fn name(&self) -> (r: &str) {
        self.name.as_str()
    }

    fn cpu_bp(&self) -> (r: Option<u64>) {
        Some(self.cpu.usage_bp)
    }

    fn memory_bytes(&self) -> (r: Option<u64>) {
        Some(self.memory.used_bytes)
    }

    fn is_healthy(&self) -> (r: bool) {
        self.state.is_running()
    }
}

impl MonitoredResource for Process {
    open spec fn kind(&self) -> ResourceType {
        ResourceType::Process
    }

    open spec fn label(&self) -> Seq<char> {
        self.command@
    }

    open spec fn cpu_share(&self) -> Option<u64> {
        Some(self.cpu_bp)
    }

    open spec fn memory_used(&self) -> Option<u64> {
        Some(self.memory_bytes)
    }

    /// A process is healthy unless it is a zombie or dead.
    open spec fn healthy(&self) -> bool {
        self.state != ProcessState::Zombie && self.state != ProcessState::Dead
    }

    fn resource_type(&self) -> (r: ResourceType) {
        ResourceType::Process
    }

    fn name(&self) -> (r: &str) {
        self.command.as_str()
    }

    fn cpu_bp(&self) -> (r: Option<u64>) {
        Some(self.cpu_bp)
    }

    fn memory_bytes(&self) -> (r: Option<u64>) {
        Some(self.memory_bytes)
    }

    fn is_healthy(&self) -> (r: bool) {
        match self.state {
            ProcessState::Zombie | ProcessState::Dead => false,
            _ => true,
        }
    }
}

} // verus!
